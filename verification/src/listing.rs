//! Reading the settings: the providers and their models, and the one in use.

use crate::error::{AppError, Failure};
use crate::filters::{lemma_filter_source, lemma_filter_step};
use crate::json::{array_value, empty_map, empty_object, find_member, is_unmarked, json_of, json_tree, map_append, map_get};
use crate::json::{map_members, object_insert, parse_toml_value, string_value, toml_json, toml_to_json};
use crate::json::{shows_strings, trees, Json, Members};
use crate::text::{is_blank, joined, text_of, text_or};
use crate::toml_access::{document_get, document_tree, item_tree, parse_document, regular_document};
use crate::toml_access::{table_entries, table_get, toml_document};
use crate::toml_doc::{find, has_key, regular, string_in, string_of, table_in, Entries, Toml};
use indexmap::IndexMap;
use serde_json::Value;
use toml_edit::{DocumentMut, Item};
use vstd::prelude::*;

verus! {

// ---------------------------------------------------------------------------
// What the settings say
// ---------------------------------------------------------------------------

/// The message for a text that is no TOML document.
pub open spec fn unreadable(message: Seq<char>) -> Failure {
    Failure::Config("Failed to parse Kimi config.toml: "@ + message)
}

/// The document in an existing file.
pub open spec fn parsed(text: Seq<char>) -> Result<Entries, Failure> {
    match toml_document(text) {
        Ok(doc) => Ok(doc),
        Err(message) => Err(unreadable(message)),
    }
}

/// Whether an entry of the models is a table that names `id` as its provider.
pub open spec fn served_by(id: Seq<char>) -> spec_fn((Seq<char>, Toml)) -> bool {
    |e: (Seq<char>, Toml)|
        match e.1 {
            Toml::Table(t) => string_in(t, "provider"@) == Some(id),
            _ => false,
        }
}

/// A model as it is listed: its name, and the name that it is shown by.
pub open spec fn labelled() -> spec_fn((Seq<char>, Toml)) -> (Seq<char>, Seq<char>) {
    |e: (Seq<char>, Toml)|
        (
            e.0,
            match e.1 {
                Toml::Table(t) => text_or(string_in(t, "display_name"@), e.0),
                _ => e.0,
            },
        )
}

/// The entries of the models, or none where there is no table of them.
pub open spec fn model_rows(doc: Entries) -> Entries {
    match table_in(doc, "models"@) {
        Some(rows) => rows,
        None => Seq::empty(),
    }
}

/// The models that `id` serves, in order, each with the name that it is shown by.
pub open spec fn models_of(doc: Entries, id: Seq<char>) -> Seq<(Seq<char>, Seq<char>)> {
    model_rows(doc).filter(served_by(id)).map_values(labelled())
}

/// Whether a model of this name is among `models`.
pub open spec fn lists(models: Seq<(Seq<char>, Seq<char>)>, name: Seq<char>) -> bool {
    exists|i: int| 0 <= i < models.len() && (#[trigger] models[i]).0 == name
}

/// The model that stands for a provider: the default model, if the provider serves it, else
/// the first that it serves.
pub open spec fn primary_model(doc: Entries, id: Seq<char>) -> Option<Seq<char>> {
    let models = models_of(doc, id);
    match string_in(doc, "default_model"@) {
        Some(m) if lists(models, m) => Some(m),
        _ => if models.len() > 0 {
            Some(models[0].0)
        } else {
            None
        },
    }
}

/// What stands under the first of two keys, or, where it does not occur, under the second.
pub open spec fn find_either(s: Entries, first: Seq<char>, second: Seq<char>) -> Option<Toml> {
    if has_key(s, first) {
        find(s, first)
    } else {
        find(s, second)
    }
}

/// The kind of a provider.
pub open spec fn kind_of(p: Entries) -> Seq<char> {
    text_or(string_in(p, "type"@), "openai"@)
}

/// The address of a provider, empty where there is none.
pub open spec fn url_of(p: Entries) -> Seq<char> {
    text_or(string_of(find_either(p, "base_url"@, "baseUrl"@)), ""@)
}

/// The key of a provider, empty where there is none.
pub open spec fn key_of(p: Entries) -> Seq<char> {
    text_or(string_of(find_either(p, "api_key"@, "apiKey"@)), ""@)
}

/// A model in the listing.
pub open spec fn model_json() -> spec_fn((Seq<char>, Seq<char>)) -> Json {
    |m: (Seq<char>, Seq<char>)|
        Json::Object(map!["id"@ => Json::Str(m.0), "name"@ => Json::Str(m.1)])
}

/// An object with `text` under two names, unless the text is empty.
pub open spec fn with_text(
    m: Map<Seq<char>, Json>,
    first: Seq<char>,
    second: Seq<char>,
    text: Seq<char>,
) -> Map<Seq<char>, Json> {
    if text.len() > 0 {
        m.insert(first, Json::Str(text)).insert(second, Json::Str(text))
    } else {
        m
    }
}

/// The members of the listing of the provider `id` with the settings `p`.
pub open spec fn provider_members(doc: Entries, id: Seq<char>, p: Entries) -> Map<
    Seq<char>,
    Json,
> {
    let named = map!["name"@ => Json::Str(id), "type"@ => Json::Str(kind_of(p))];
    let located = with_text(named, "baseUrl"@, "base_url"@, url_of(p));
    let keyed = with_text(located, "apiKey"@, "api_key"@, key_of(p));
    let primed = match primary_model(doc, id) {
        Some(m) => keyed.insert("model"@, Json::Str(m)),
        None => keyed,
    };
    let models = models_of(doc, id);
    if models.len() > 0 {
        primed.insert("models"@, Json::Array(models.map_values(model_json())))
    } else {
        primed
    }
}

/// Whether an entry is a table.
pub open spec fn is_row() -> spec_fn((Seq<char>, Toml)) -> bool {
    |e: (Seq<char>, Toml)| e.1 is Table
}

/// A provider in the listing.
pub open spec fn provider_entry(doc: Entries) -> spec_fn((Seq<char>, Toml)) -> (Seq<char>, Json) {
    |e: (Seq<char>, Toml)| (e.0, Json::Object(provider_members(doc, e.0, e.1->Table_0)))
}

/// The providers that a document lists, in order.
pub open spec fn providers_of(doc: Entries) -> Members {
    match table_in(doc, "providers"@) {
        Some(rows) => rows.filter(is_row()).map_values(provider_entry(doc)),
        None => Seq::empty(),
    }
}

/// What the file holds, if anything, is a document with distinct keys in each of its tables.
pub open spec fn is_regular_file(content: Option<Seq<char>>) -> bool {
    content matches Some(text) ==> !is_blank(text) ==> (toml_document(text) matches Ok(doc)
        && regular(Toml::Table(doc)))
}

/// The providers in the configuration file, if there is one.
pub open spec fn listed(content: Option<Seq<char>>) -> Result<Members, Failure> {
    match content {
        Some(text) if !is_blank(text) => match parsed(text) {
            Ok(doc) => Ok(providers_of(doc)),
            Err(e) => Err(e),
        },
        _ => Ok(Seq::empty()),
    }
}

/// The provider of the default model.
pub open spec fn current_of(doc: Entries) -> Option<Seq<char>> {
    match string_in(doc, "default_model"@) {
        Some(m) => match table_in(model_rows(doc), m) {
            Some(t) => string_in(t, "provider"@),
            None => None,
        },
        None => None,
    }
}

/// The provider in use according to the configuration file, if there is one.
pub open spec fn current(content: Option<Seq<char>>) -> Result<Option<Seq<char>>, Failure> {
    match content {
        Some(text) => match parsed(text) {
            Ok(doc) => Ok(current_of(doc)),
            Err(e) => Err(e),
        },
        None => Ok(None),
    }
}

/// The configuration as JSON. A document with a table that has the key by which `toml` marks
/// a date is what `toml` makes of it.
pub open spec fn config_json(content: Option<Seq<char>>) -> Result<Json, Failure> {
    match content {
        Some(text) if !is_blank(text) => match toml_document(text) {
            Ok(doc) => if is_unmarked(Toml::Table(doc)) {
                Ok(json_of(Toml::Table(doc)))
            } else {
                match toml_json(text) {
                    Ok(v) => Ok(v),
                    Err(message) => Err(unreadable(message)),
                }
            },
            Err(message) => Err(unreadable(message)),
        },
        _ => Ok(Json::Object(Map::empty())),
    }
}

// ---------------------------------------------------------------------------
// Steps
// ---------------------------------------------------------------------------

/// The document in an existing file.
pub(crate) fn open_existing(text: &str) -> (r: Result<DocumentMut, AppError>)
    ensures
        match r {
            Ok(doc) => parsed(text@) == Ok::<Entries, Failure>(document_tree(doc))
                && regular_document(doc),
            Err(e) => parsed(text@) == Err::<Entries, Failure>(e@),
        },
{
    match parse_document(text) {
        Ok(doc) => Ok(doc),
        Err(message) => Err(
            AppError::Config(joined("Failed to parse Kimi config.toml: ", message.as_str())),
        ),
    }
}

/// The table under `key` of a document.
pub(crate) fn section<'a>(doc: &'a DocumentMut, key: &str) -> (r: Option<&'a Item>)
    requires
        regular_document(*doc),
    ensures
        match r {
            Some(item) => {
                &&& table_in(document_tree(*doc), key@) is Some
                &&& item_tree(*item) == Toml::Table(table_in(document_tree(*doc), key@)->0)
                &&& regular(item_tree(*item))
            },
            None => table_in(document_tree(*doc), key@) is None,
        },
{
    match document_get(doc, key) {
        Some(item) => if item.is_table_like() {
            Some(item)
        } else {
            None
        },
        None => None,
    }
}

/// The string under `key` of a document.
pub(crate) fn document_string<'a>(doc: &'a DocumentMut, key: &str) -> (r: Option<&'a str>)
    requires
        regular_document(*doc),
    ensures
        text_of(r) == string_in(document_tree(*doc), key@),
{
    match document_get(doc, key) {
        Some(item) => item.as_str(),
        None => None,
    }
}

/// The string under `key` of a table.
pub(crate) fn table_string<'a>(table: &'a Item, key: &str) -> (r: Option<&'a str>)
    requires
        regular(item_tree(*table)),
        item_tree(*table) is Table,
    ensures
        text_of(r) == string_in(item_tree(*table)->Table_0, key@),
{
    match table_get(table, key) {
        Some(item) => item.as_str(),
        None => None,
    }
}

/// The string under the first of two keys, or, where it does not occur, under the second.
fn either_string<'a>(table: &'a Item, first: &str, second: &str) -> (r: Option<&'a str>)
    requires
        regular(item_tree(*table)),
        item_tree(*table) is Table,
    ensures
        text_of(r) == string_of(find_either(item_tree(*table)->Table_0, first@, second@)),
{
    match table_get(table, first) {
        Some(item) => item.as_str(),
        None => table_string(table, second),
    }
}

/// Whether a model is served by `id`.
pub(crate) fn is_served(model: &Item, id: &str) -> (r: bool)
    requires
        regular(item_tree(*model)),
    ensures
        forall|name: Seq<char>| r == #[trigger] served_by(id@)((name, item_tree(*model))),
{
    if model.is_table_like() {
        match table_string(model, "provider") {
            Some(p) => p.eq(id),
            None => false,
        }
    } else {
        false
    }
}

/// The views of a list of pairs of strings.
pub open spec fn pair_views(pairs: Seq<(String, String)>) -> Seq<(Seq<char>, Seq<char>)> {
    pairs.map_values(|p: (String, String)| (p.0@, p.1@))
}

/// The models that `id` serves, in order, each with the name that it is shown by.
fn list_models(doc: &DocumentMut, id: &str) -> (r: Vec<(String, String)>)
    requires
        regular_document(*doc),
    ensures
        pair_views(r@) == models_of(document_tree(*doc), id@),
{
    let mut found: Vec<(String, String)> = Vec::new();
    let ghost rows = model_rows(document_tree(*doc));
    let ghost keep = served_by(id@);
    if let Some(models) = section(doc, "models") {
        let entries = table_entries(models);
        let mut i: usize = 0;
        assert(pair_views(found@) =~= rows.take(0).filter(keep).map_values(labelled())) by {
            reveal(Seq::filter);
        }
        while i < entries.len()
            invariant
                i <= entries.len(),
                entries@.len() == rows.len(),
                regular(Toml::Table(rows)),
                keep == served_by(id@),
                forall|j: int|
                    0 <= j < entries@.len() ==> (#[trigger] entries@[j]).0@ == rows[j].0
                        && item_tree(*entries@[j].1) == rows[j].1,
                pair_views(found@) == rows.take(i as int).filter(keep).map_values(labelled()),
            decreases entries.len() - i,
        {
            let (name, item) = entries[i];
            assert(regular(rows[i as int].1));
            proof {
                lemma_filter_step(rows, keep, i as int);
            }
            let ghost before = found@;
            let ghost kept = rows.take(i as int).filter(keep);
            if is_served(item, id) {
                assert(keep((rows[i as int].0, item_tree(*item))));
                assert(keep(rows[i as int]));
                let shown = match table_string(item, "display_name") {
                    Some(s) => s,
                    None => name,
                };
                found.push((name.to_owned(), shown.to_owned()));
                assert(pair_views(found@) =~= pair_views(before).push((name@, shown@)));
                assert(kept.push(rows[i as int]).map_values(labelled()) =~= kept.map_values(
                    labelled(),
                ).push(labelled()(rows[i as int])));
            } else {
                assert(!keep((rows[i as int].0, item_tree(*item))));
            }
            i += 1;
        }
        assert(rows.take(i as int) =~= rows);
    } else {
        assert(pair_views(found@) =~= rows.filter(keep).map_values(labelled())) by {
            reveal(Seq::filter);
        }
    }
    found
}

/// The model that stands for a provider among the models that it serves.
fn choose_primary<'a>(models: &'a Vec<(String, String)>, default_model: Option<&'a str>) -> (r:
    Option<&'a str>)
    ensures
        text_of(r) == match text_of(default_model) {
            Some(m) if lists(pair_views(models@), m) => Some(m),
            _ => if models@.len() > 0 {
                Some(models@[0].0@)
            } else {
                None
            },
        },
{
    if let Some(m) = default_model {
        let mut i: usize = 0;
        while i < models.len()
            invariant
                i <= models.len(),
                default_model == Some(m),
                forall|j: int| 0 <= j < i ==> (#[trigger] pair_views(models@)[j]).0 != m@,
            decreases models.len() - i,
        {
            if models[i].0.as_str().eq(m) {
                assert(pair_views(models@)[i as int].0 == m@);
                return Some(m);
            }
            i += 1;
        }
    }
    if models.len() > 0 {
        Some(models[0].0.as_str())
    } else {
        None
    }
}

/// Writes `text` under two names of an object, unless the text is empty.
fn insert_text(object: &mut Value, first: &str, second: &str, text: &str)
    requires
        json_tree(*old(object)) is Object,
    ensures
        json_tree(*final(object)) == Json::Object(
            with_text(json_tree(*old(object))->Object_0, first@, second@, text@),
        ),
{
    if !text.is_empty() {
        object_insert(object, first, string_value(text));
        object_insert(object, second, string_value(text));
    }
}

/// The listing of a list of models.
fn models_value(models: &Vec<(String, String)>) -> (r: Value)
    ensures
        json_tree(r) == Json::Array(pair_views(models@).map_values(model_json())),
{
    let mut values: Vec<Value> = Vec::new();
    let mut i: usize = 0;
    while i < models.len()
        invariant
            i <= models.len(),
            trees(values@) == pair_views(models@).take(i as int).map_values(model_json()),
        decreases models.len() - i,
    {
        let ghost before = values@;
        let mut model = empty_object();
        object_insert(&mut model, "id", string_value(models[i].0.as_str()));
        object_insert(&mut model, "name", string_value(models[i].1.as_str()));
        let ghost m = pair_views(models@)[i as int];
        assert(json_tree(model) == model_json()(m));
        values.push(model);
        assert(trees(values@) =~= trees(before).push(model_json()(m)));
        assert(pair_views(models@).take(i + 1) =~= pair_views(models@).take(i as int).push(m));
        assert(trees(values@) =~= pair_views(models@).take(i + 1).map_values(model_json()));
        i += 1;
    }
    assert(pair_views(models@).take(i as int) =~= pair_views(models@));
    array_value(values)
}

/// The listing of the provider `id` with the settings `settings`.
fn provider_value(doc: &DocumentMut, id: &str, settings: &Item) -> (r: Value)
    requires
        regular_document(*doc),
        regular(item_tree(*settings)),
        item_tree(*settings) is Table,
    ensures
        json_tree(r) == Json::Object(
            provider_members(document_tree(*doc), id@, item_tree(*settings)->Table_0),
        ),
{
    let kind = match table_string(settings, "type") {
        Some(s) => s,
        None => "openai",
    };
    let url = match either_string(settings, "base_url", "baseUrl") {
        Some(s) => s,
        None => "",
    };
    let key = match either_string(settings, "api_key", "apiKey") {
        Some(s) => s,
        None => "",
    };
    let models = list_models(doc, id);
    let primary = choose_primary(&models, document_string(doc, "default_model"));
    assert(text_of(primary) == primary_model(document_tree(*doc), id@));

    let mut object = empty_object();
    object_insert(&mut object, "name", string_value(id));
    object_insert(&mut object, "type", string_value(kind));
    insert_text(&mut object, "baseUrl", "base_url", url);
    insert_text(&mut object, "apiKey", "api_key", key);
    if let Some(m) = primary {
        object_insert(&mut object, "model", string_value(m));
    }
    if models.len() > 0 {
        object_insert(&mut object, "models", models_value(&models));
    }
    object
}

/// A key that no entry has is not found.
proof fn lemma_not_member(s: Members, key: Seq<char>)
    requires
        forall|i: int| 0 <= i < s.len() ==> (#[trigger] s[i]).0 != key,
    ensures
        find_member(s, key) is None,
    decreases s.len(),
{
    if s.len() > 0 {
        assert(s[s.len() - 1].0 != key);
        assert forall|i: int| 0 <= i < s.drop_last().len() implies (#[trigger] s.drop_last()[i]).0
            != key by {
            assert(s[i].0 != key);
        }
        lemma_not_member(s.drop_last(), key);
    }
}

/// The providers that a document lists, in order.
pub fn providers_in(doc: &DocumentMut) -> (r: IndexMap<String, Value>)
    requires
        regular_document(*doc),
    ensures
        map_members(r) == providers_of(document_tree(*doc)),
{
    let mut found = empty_map();
    let ghost tree = document_tree(*doc);
    let ghost keep = is_row();
    let ghost entry = provider_entry(tree);
    if let Some(providers) = section(doc, "providers") {
        let ghost rows = table_in(tree, "providers"@)->0;
        let entries = table_entries(providers);
        let mut i: usize = 0;
        assert(map_members(found) =~= rows.take(0).filter(keep).map_values(entry)) by {
            reveal(Seq::filter);
        }
        while i < entries.len()
            invariant
                i <= entries.len(),
                regular_document(*doc),
                tree == document_tree(*doc),
                keep == is_row(),
                entry == provider_entry(tree),
                entries@.len() == rows.len(),
                regular(Toml::Table(rows)),
                forall|j: int|
                    0 <= j < entries@.len() ==> (#[trigger] entries@[j]).0@ == rows[j].0
                        && item_tree(*entries@[j].1) == rows[j].1,
                map_members(found) == rows.take(i as int).filter(keep).map_values(entry),
            decreases entries.len() - i,
        {
            let (id, settings) = entries[i];
            assert(regular(rows[i as int].1));
            proof {
                lemma_filter_step(rows, keep, i as int);
                lemma_filter_source(rows.take(i as int), keep);
            }
            let ghost kept = rows.take(i as int).filter(keep);
            if settings.is_table_like() {
                let value = provider_value(doc, id, settings);
                proof {
                    assert forall|j: int| 0 <= j < map_members(found).len() implies (
                    #[trigger] map_members(found)[j]).0 != id@ by {
                        assert(map_members(found)[j].0 == kept[j].0);
                        let k = choose|k: int|
                            0 <= k < rows.take(i as int).len() && rows.take(i as int)[k] == kept[j];
                        assert(rows[k].0 != rows[i as int].0);
                    }
                    lemma_not_member(map_members(found), id@);
                }
                map_append(&mut found, id.to_owned(), value);
                assert(kept.push(rows[i as int]).map_values(entry) =~= kept.map_values(entry).push(
                    entry(rows[i as int]),
                ));
            }
            i += 1;
        }
        assert(rows.take(i as int) =~= rows);
    }
    found
}

/// The providers in the configuration file, if there is one, in order, each with its
/// settings and models.
pub fn get_providers(content: Option<&str>) -> (r: Result<IndexMap<String, Value>, AppError>)
    ensures
        match r {
            Ok(m) => listed(text_of(content)) == Ok::<Members, Failure>(map_members(m))
                && is_regular_file(text_of(content)),
            Err(e) => listed(text_of(content)) == Err::<Members, Failure>(e@),
        },
{
    let text = match content {
        Some(text) => text,
        None => return Ok(empty_map()),
    };
    if text.trim().is_empty() {
        return Ok(empty_map());
    }
    match open_existing(text) {
        Ok(doc) => Ok(providers_in(&doc)),
        Err(e) => Err(e),
    }
}

/// The provider `id` in the configuration file.
pub fn get_provider(content: Option<&str>, id: &str) -> (r: Result<Option<Value>, AppError>)
    ensures
        match r {
            Ok(v) => listed(text_of(content)) matches Ok(members) && find_member(members, id@)
                == match v {
                Some(value) => Some(json_tree(value)),
                None => None,
            } && is_regular_file(text_of(content)),
            Err(e) => listed(text_of(content)) == Err::<Members, Failure>(e@),
        },
{
    match get_providers(content) {
        Ok(m) => match map_get(&m, id) {
            Some(v) => Ok(Some(v.clone())),
            None => Ok(None),
        },
        Err(e) => Err(e),
    }
}

/// The provider of the default model of a document.
pub fn current_provider_in(doc: &DocumentMut) -> (r: Option<String>)
    requires
        regular_document(*doc),
    ensures
        match r {
            Some(id) => current_of(document_tree(*doc)) == Some(id@),
            None => current_of(document_tree(*doc)) is None,
        },
{
    let name = match document_string(doc, "default_model") {
        Some(name) => name,
        None => return None,
    };
    if let Some(models) = section(doc, "models") {
        if let Some(model) = table_get(models, name) {
            if model.is_table_like() {
                if let Some(id) = table_string(model, "provider") {
                    return Some(id.to_owned());
                }
            }
        }
    }
    None
}

/// The provider in use: the one of the default model.
pub fn get_current_provider_id(content: Option<&str>) -> (r: Result<Option<String>, AppError>)
    ensures
        match r {
            Ok(id) => current(text_of(content)) == Ok::<Option<Seq<char>>, Failure>(
                match id {
                    Some(s) => Some(s@),
                    None => None,
                },
            ),
            Err(e) => current(text_of(content)) == Err::<Option<Seq<char>>, Failure>(e@),
        },
{
    let text = match content {
        Some(text) => text,
        None => return Ok(None),
    };
    match open_existing(text) {
        Ok(doc) => Ok(current_provider_in(&doc)),
        Err(e) => Err(e),
    }
}

/// The configuration file as JSON, an empty object where there is nothing in it.
pub fn read_kimi_config_json(content: Option<&str>) -> (r: Result<Value, AppError>)
    ensures
        match r {
            Ok(v) => config_json(text_of(content)) == Ok::<Json, Failure>(json_tree(v)) && (
            text_of(content) matches Some(text) ==> (!is_blank(text) ==> shows_strings(
                text,
                json_tree(v),
            ))),
            Err(e) => config_json(text_of(content)) == Err::<Json, Failure>(e@),
        },
{
    let text = match content {
        Some(text) => text,
        None => return Ok(empty_object()),
    };
    if text.trim().is_empty() {
        return Ok(empty_object());
    }
    match parse_toml_value(text) {
        Ok(v) => match toml_to_json(v) {
            Ok(j) => Ok(j),
            Err(message) => Err(
                AppError::Config(
                    joined("Failed to convert Kimi config to JSON: ", message.as_str()),
                ),
            ),
        },
        Err(message) => Err(
            AppError::Config(joined("Failed to parse Kimi config.toml: ", message.as_str())),
        ),
    }
}

} // verus!
