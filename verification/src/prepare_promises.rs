//! What configuring a provider promises, said of the texts before and after.

use crate::changes::{assigned, can_configure, can_give, can_prepare, lemma_sections, opened, prepared};
use crate::changes::{takes_model, wanted_models, with_models, with_table};
use crate::editing::prepare_provider;
use crate::error::{AppError, Failure};
use crate::json::{json_tree, member_of, Json};
use crate::laws::{law_prepare_keeps_others, law_prepare_writes_settings, lemma_assigned};
use crate::laws::{lemma_configured, lemma_find_prepared, lemma_find_with_model, lemma_find_with_models};
use crate::laws::rows_in;
use crate::listing::model_rows;
use crate::promises::{has_room_for, is_document_of, is_table_or_absent, lemma_item_below};
use crate::promises::{lemma_item_under, lemma_stays_at, lemma_wanted, names_first, names_model};
use crate::promises::stays_at;
use crate::round_trips::{lemma_paths, lemma_same, read_from};
use crate::text::{text_of, trimmed, writable};
use crate::toml_access::{renders, toml_document};
use crate::toml_doc::{find, has_key, holds_same, item_at, lemma_find_put, regular, table_in, Entries};
use crate::toml_doc::Toml;
use serde_json::Value;
use vstd::prelude::*;

verus! {

/// What a change to `doc` writes, with the tree that it is made from.
proof fn lemma_prepared(content: Option<&str>, id: &str, c: Value, text: String, doc: Entries) -> (tree:
    Entries)
    requires
        call_ensures(prepare_provider, (content, id, c), Ok::<String, AppError>(text)),
        is_document_of(content, doc),
    ensures
        prepared(doc, id@, json_tree(c)) == Ok::<Entries, Failure>(tree),
        renders(text@, tree),
        toml_document(text@) == Ok::<Entries, Seq<char>>(read_from(text@)),
        holds_same(read_from(text@), tree),
        regular(Toml::Table(doc)),
{
    lemma_opened(content, doc);
    prepared(doc, id@, json_tree(c))->Ok_0
}

/// The document to change is what the file holds.
pub proof fn lemma_opened(content: Option<&str>, doc: Entries)
    requires
        is_document_of(content, doc),
    ensures
        opened(text_of(content)) == Ok::<Entries, Failure>(doc),
{
    if doc.len() == 0 {
        assert(doc =~= Seq::empty());
    }
}

/// The text under `key` is the string `v`, trimmed; a value that is no string, or a blank one,
/// leaves what was there.
pub open spec fn takes_text(after: Entries, before: Entries, key: Seq<char>, v: Json) -> bool {
    match v {
        Json::Str(s) if trimmed(s).len() > 0 => find(after, key) == Some(Toml::Str(trimmed(s))),
        _ => has_key(after, key) == has_key(before, key) && stays_at(after, before, seq![key]),
    }
}

/// The address of a configured provider is the string under "baseUrl", trimmed; without that
/// member the one under "base_url", and without both the one under "endpoint". Where that is
/// no string, or blank, or none is given, the address stays. Nothing else in the configuration
/// bears on it.
pub proof fn law_prepare_takes_the_address(
    content: Option<&str>,
    id: &str,
    c: Value,
    text: String,
    doc: Entries,
)
    requires
        call_ensures(prepare_provider, (content, id, c), Ok::<String, AppError>(text)),
        is_document_of(content, doc),
    ensures
        toml_document(text@) == Ok::<Entries, Seq<char>>(read_from(text@)),
        table_in(rows_in(read_from(text@), "providers"@), id@) is Some,
        ({
            let config = json_tree(c);
            let before = rows_in(rows_in(doc, "providers"@), id@);
            let after = rows_in(rows_in(read_from(text@), "providers"@), id@);
            match (
                member_of(config, "baseUrl"@),
                member_of(config, "base_url"@),
                member_of(config, "endpoint"@),
            ) {
                (Some(v), _, _) => takes_text(after, before, "base_url"@, v),
                (None, Some(v), _) => takes_text(after, before, "base_url"@, v),
                (None, None, Some(v)) => takes_text(after, before, "base_url"@, v),
                (None, None, None) => has_key(after, "base_url"@) == has_key(before, "base_url"@)
                    && stays_at(after, before, seq!["base_url"@]),
            }
        }),
{
    let tree = lemma_prepared(content, id, c, text, doc);
    let again = read_from(text@);
    let before = rows_in(rows_in(doc, "providers"@), id@);
    law_prepare_writes_settings(doc, id@, json_tree(c), tree);
    lemma_configured(before, json_tree(c));
    lemma_same(again, tree, "providers"@, id@, "base_url"@);
    lemma_setting_stays(again, tree, doc, id@, "base_url"@);
}

/// A setting that a change keeps is read back.
proof fn lemma_setting_stays(
    again: Entries,
    tree: Entries,
    doc: Entries,
    id: Seq<char>,
    key: Seq<char>,
)
    requires
        holds_same(again, tree),
    ensures
        ({
            let before = rows_in(rows_in(doc, "providers"@), id);
            let between = rows_in(rows_in(tree, "providers"@), id);
            let after = rows_in(rows_in(again, "providers"@), id);
            find(between, key) == find(before, key) ==> has_key(after, key) == has_key(before, key)
                && stays_at(after, before, seq![key])
        }),
{
    lemma_same(again, tree, "providers"@, id, key);
    let path = seq!["providers"@, id, key];
    lemma_paths(tree, "providers"@, id, key);
    lemma_paths(again, "providers"@, id, key);
    lemma_paths(rows_in(rows_in(again, "providers"@), id), key, key, key);
    lemma_paths(rows_in(rows_in(doc, "providers"@), id), key, key, key);
    assert(item_at(again, path) is Some ==> item_at(tree, path) is Some);
    let none = Seq::<(Seq<char>, Toml)>::empty();
    assert(find(none, key) is None);
    assert(find(none, id) is None);
}

/// The kind of a configured provider is the string under "type", as it stands, or "openai"
/// where there is no string.
pub proof fn law_prepare_takes_the_kind(
    content: Option<&str>,
    id: &str,
    c: Value,
    text: String,
    doc: Entries,
)
    requires
        call_ensures(prepare_provider, (content, id, c), Ok::<String, AppError>(text)),
        is_document_of(content, doc),
    ensures
        find(rows_in(rows_in(read_from(text@), "providers"@), id@), "type"@) == Some(
            Toml::Str(
                match member_of(json_tree(c), "type"@) {
                    Some(Json::Str(s)) => s,
                    _ => "openai"@,
                },
            ),
        ),
{
    let tree = lemma_prepared(content, id, c, text, doc);
    law_prepare_writes_settings(doc, id@, json_tree(c), tree);
    lemma_configured(rows_in(rows_in(doc, "providers"@), id@), json_tree(c));
    lemma_same(read_from(text@), tree, "providers"@, id@, "type"@);
}

/// The key is the string `v`, trimmed, and there is none where that is no string, or blank.
pub open spec fn takes_key(after: Entries, v: Json) -> bool {
    match v {
        Json::Str(s) if trimmed(s).len() > 0 => find(after, "api_key"@) == Some(
            Toml::Str(trimmed(s)),
        ),
        _ => find(after, "api_key"@) is None,
    }
}

/// The key of a configured provider is the string under "apiKey", trimmed, or, without that
/// member, the one under "api_key". Where that is no string, or blank, the key is taken away;
/// where neither is given, it stays.
pub proof fn law_prepare_takes_the_key(
    content: Option<&str>,
    id: &str,
    c: Value,
    text: String,
    doc: Entries,
)
    requires
        call_ensures(prepare_provider, (content, id, c), Ok::<String, AppError>(text)),
        is_document_of(content, doc),
    ensures
        ({
            let config = json_tree(c);
            let before = rows_in(rows_in(doc, "providers"@), id@);
            let after = rows_in(rows_in(read_from(text@), "providers"@), id@);
            match (member_of(config, "apiKey"@), member_of(config, "api_key"@)) {
                (Some(v), _) => takes_key(after, v),
                (None, Some(v)) => takes_key(after, v),
                (None, None) => has_key(after, "api_key"@) == has_key(before, "api_key"@)
                    && stays_at(after, before, seq!["api_key"@]),
            }
        }),
{
    let tree = lemma_prepared(content, id, c, text, doc);
    let again = read_from(text@);
    law_prepare_writes_settings(doc, id@, json_tree(c), tree);
    lemma_configured(rows_in(rows_in(doc, "providers"@), id@), json_tree(c));
    lemma_same(again, tree, "providers"@, id@, "api_key"@);
    lemma_setting_stays(again, tree, doc, id@, "api_key"@);
}

/// What configuring a provider may change: three settings of the provider, two of each model
/// that the configuration names, and the default model.
pub open spec fn is_touched_by_prepare(path: Seq<Seq<char>>, id: Seq<char>, c: Json) -> bool {
    ||| path[0] == "default_model"@
    ||| path[0] == "providers"@ && (path.len() == 1 || path[1] == id && (path.len() == 2 || path[2]
        == "type"@ || path[2] == "base_url"@ || path[2] == "api_key"@))
    ||| path[0] == "models"@ && (path.len() == 1 || names_model(c, path[1]) && (path.len() == 2
        || path[2] == "provider"@ || path[2] == "model"@))
}

/// Giving models to a provider keeps what their rows hold beside the provider and the name.
proof fn lemma_rows_keep(
    rows: Entries,
    id: Seq<char>,
    names: Seq<Seq<char>>,
    name: Seq<char>,
    key: Seq<char>,
)
    requires
        key != "provider"@,
        key != "model"@,
    ensures
        find(rows_in(with_models(rows, id, names), name), key) == find(rows_in(rows, name), key),
    decreases names.len(),
{
    if names.len() > 0 {
        let before = with_models(rows, id, names.drop_last());
        lemma_rows_keep(rows, id, names.drop_last(), name, key);
        lemma_find_with_model(before, id, names.last(), name);
        if name == names.last() {
            lemma_assigned(Seq::empty(), id, name);
            assert(find(assigned(Seq::empty(), id, name), key) == find(Seq::empty(), key));
            if let Some(t) = table_in(before, name) {
                lemma_assigned(t, id, name);
                assert(find(assigned(t, id, name), key) == find(t, key));
            }
        }
    }
}

/// Configuring a provider changes nothing but what it is about.
pub proof fn law_prepare_touches_nothing_else(
    content: Option<&str>,
    id: &str,
    c: Value,
    text: String,
    doc: Entries,
    path: Seq<Seq<char>>,
)
    requires
        call_ensures(prepare_provider, (content, id, c), Ok::<String, AppError>(text)),
        is_document_of(content, doc),
        path.len() > 0,
        !is_touched_by_prepare(path, id@, json_tree(c)),
    ensures
        stays_at(read_from(text@), doc, path),
{
    let tree = lemma_prepared(content, id, c, text, doc);
    let config = json_tree(c);
    law_prepare_keeps_others(doc, id@, config, tree);
    lemma_sections();
    if path[0] == "providers"@ {
        lemma_item_below(tree, path);
        lemma_item_below(doc, path);
        let rest = path.drop_first();
        let rows = rows_in(tree, "providers"@);
        let old_rows = rows_in(doc, "providers"@);
        if path[1] != id@ {
            assert(find(rows, path[1]) == find(old_rows, path[1]));
            lemma_item_under(rows, old_rows, rest);
        } else {
            lemma_item_below(rows, rest);
            lemma_item_below(old_rows, rest);
            law_prepare_writes_settings(doc, id@, config, tree);
            let after = rows_in(rows, id@);
            let before = rows_in(old_rows, id@);
            assert(rest.drop_first()[0] == path[2]);
            assert(find(after, path[2]) == find(before, path[2]));
            lemma_item_under(after, before, rest.drop_first());
        }
    } else if path[0] == "models"@ {
        lemma_item_below(tree, path);
        lemma_item_below(doc, path);
        let rest = path.drop_first();
        let rows = rows_in(tree, "models"@);
        let old_rows = rows_in(doc, "models"@);
        assert(rows == model_rows(tree) && old_rows == model_rows(doc));
        lemma_wanted(config, path[1]);
        if !names_model(config, path[1]) {
            assert(find(model_rows(tree), path[1]) == find(model_rows(doc), path[1]));
            lemma_item_under(rows, old_rows, rest);
        } else {
            lemma_item_below(rows, rest);
            lemma_item_below(old_rows, rest);
            lemma_find_prepared(doc, id@, config, tree, "models"@);
            lemma_rows_keep(old_rows, id@, wanted_models(config), path[1], path[2]);
            assert(rest.drop_first()[0] == path[2]);
            lemma_item_under(rows_in(rows, path[1]), rows_in(old_rows, path[1]), rest.drop_first());
        }
    } else {
        assert(find(tree, path[0]) == find(doc, path[0]));
        lemma_item_under(tree, doc, path);
    }
    lemma_stays_at(read_from(text@), tree, doc, path);
}

/// Every model that a configuration names has the provider under "provider" and its own name
/// under "model" afterwards; where the models, or its row, are something else than a table,
/// these stay. Where the configuration names no model, no table of models is added.
pub proof fn law_prepare_gives_named_models(
    content: Option<&str>,
    id: &str,
    c: Value,
    text: String,
    doc: Entries,
    name: Seq<char>,
)
    requires
        call_ensures(prepare_provider, (content, id, c), Ok::<String, AppError>(text)),
        is_document_of(content, doc),
    ensures
        names_model(json_tree(c), name) && has_room_for(doc, name) ==> ({
            let row = rows_in(rows_in(read_from(text@), "models"@), name);
            &&& find(row, "provider"@) == Some(Toml::Str(id@))
            &&& find(row, "model"@) == Some(Toml::Str(name))
        }),
        !is_table_or_absent(doc, "models"@) ==> stays_at(read_from(text@), doc, seq!["models"@]),
        !is_table_or_absent(rows_in(doc, "models"@), name) ==> stays_at(
            read_from(text@),
            doc,
            seq!["models"@, name],
        ),
        has_key(read_from(text@), "models"@) && !has_key(doc, "models"@) ==> exists|m: Seq<char>|
            names_model(json_tree(c), m),
{
    let tree = lemma_prepared(content, id, c, text, doc);
    let again = read_from(text@);
    let config = json_tree(c);
    let names = wanted_models(config);
    lemma_sections();
    lemma_find_prepared(doc, id@, config, tree, "models"@);
    lemma_wanted(config, name);
    lemma_find_with_models(model_rows(doc), id@, names, name);
    lemma_same(again, tree, "models"@, name, "provider"@);
    lemma_same(again, tree, "models"@, name, "model"@);
    lemma_paths(tree, "models"@, name, name);
    lemma_paths(doc, "models"@, name, name);
    if !is_table_or_absent(doc, "models"@) {
        lemma_stays_at(again, tree, doc, seq!["models"@]);
    }
    if !is_table_or_absent(rows_in(doc, "models"@), name) {
        lemma_stays_at(again, tree, doc, seq!["models"@, name]);
    }
    if names.len() > 0 {
        assert(names_model(config, names[0]));
    }
}

/// Configuring a provider keeps a default model, whatever it is; where there is none, the first
/// model that the configuration names becomes it, and there is none where it names none.
pub proof fn law_prepare_settles_the_default(
    content: Option<&str>,
    id: &str,
    c: Value,
    text: String,
    doc: Entries,
    name: Seq<char>,
)
    requires
        call_ensures(prepare_provider, (content, id, c), Ok::<String, AppError>(text)),
        is_document_of(content, doc),
    ensures
        has_key(doc, "default_model"@) ==> has_key(read_from(text@), "default_model"@) && stays_at(
            read_from(text@),
            doc,
            seq!["default_model"@],
        ),
        !has_key(doc, "default_model"@) ==> (names_first(json_tree(c), name) <==> find(
            read_from(text@),
            "default_model"@,
        ) == Some(Toml::Str(name))),
        !has_key(doc, "default_model"@) && has_key(read_from(text@), "default_model"@)
            ==> exists|m: Seq<char>| names_model(json_tree(c), m),
{
    let tree = lemma_prepared(content, id, c, text, doc);
    let again = read_from(text@);
    lemma_sections();
    lemma_find_prepared(doc, id@, json_tree(c), tree, "default_model"@);
    lemma_wanted(json_tree(c), name);
    lemma_same(again, tree, "default_model"@, ""@, ""@);
    lemma_paths(tree, "default_model"@, ""@, ""@);
    lemma_paths(doc, "default_model"@, ""@, ""@);
    if has_key(doc, "default_model"@) {
        lemma_stays_at(again, tree, doc, seq!["default_model"@]);
    }
    if wanted_models(json_tree(c)).len() > 0 {
        assert(names_model(json_tree(c), wanted_models(json_tree(c))[0]));
    }
}

/// A string that is written trimmed, where anything of it is, can be written.
pub open spec fn is_taken(v: Option<Json>) -> bool {
    v matches Some(Json::Str(s)) ==> writable(trimmed(s))
}

/// The strings of a configuration that are written can be written: the kind; of the addresses
/// and of the keys, the one that counts; the names of the models, and `id`, where their rows
/// are written; and the first name where it becomes the default model.
pub open spec fn has_only_taken(doc: Entries, id: Seq<char>, c: Json) -> bool {
    &&& member_of(c, "type"@) matches Some(Json::Str(s)) ==> writable(s)
    &&& is_taken(
        if member_of(c, "baseUrl"@) is Some {
            member_of(c, "baseUrl"@)
        } else if member_of(c, "base_url"@) is Some {
            member_of(c, "base_url"@)
        } else {
            member_of(c, "endpoint"@)
        },
    )
    &&& is_taken(
        if member_of(c, "apiKey"@) is Some {
            member_of(c, "apiKey"@)
        } else {
            member_of(c, "api_key"@)
        },
    )
    &&& forall|name: Seq<char>| #[trigger]
        names_model(c, name) && has_room_for(doc, name) ==> writable(id) && writable(name)
    &&& forall|name: Seq<char>| #[trigger]
        names_first(c, name) && !has_key(doc, "default_model"@) ==> writable(name)
}

/// Configuring a provider succeeds exactly where the file can be read, the providers and the
/// row of the provider are tables or not there, and what is written can be written; else it
/// says which of these fails.
pub proof fn law_prepare_succeeds(
    content: Option<&str>,
    id: &str,
    c: Value,
    r: Result<String, AppError>,
    doc: Entries,
)
    requires
        call_ensures(prepare_provider, (content, id, c), r),
        is_document_of(content, doc),
    ensures
        r is Ok <==> is_table_or_absent(doc, "providers"@) && is_table_or_absent(
            rows_in(doc, "providers"@),
            id@,
        ) && has_only_taken(doc, id@, json_tree(c)),
        !is_table_or_absent(doc, "providers"@) ==> (r matches Err(AppError::Config(s)) && s@
            == "Kimi config.toml [providers] is not a table"@),
        !is_table_or_absent(rows_in(doc, "providers"@), id@) ==> (r matches Err(
            AppError::Config(s),
        ) && s@ == "Kimi provider table '"@ + id@ + "' is invalid"@),
        r is Err && is_table_or_absent(doc, "providers"@) && is_table_or_absent(
            rows_in(doc, "providers"@),
            id@,
        ) ==> (r matches Err(AppError::Config(s)) && s@
            == "Kimi config.toml cannot hold this many quotes in a row"@),
{
    lemma_opened(content, doc);
    lemma_can_prepare(doc, id@, json_tree(c));
    let tabled = with_table(doc, "providers"@);
    let none = Toml::Table(Seq::empty());
    lemma_find_put(doc, "providers"@, none, "providers"@);
    let rows = rows_in(doc, "providers"@);
    lemma_find_put(rows, id@, none, id@);
    lemma_find_put(Seq::empty(), id@, none, id@);
}

/// What configuring a provider writes, string by string.
proof fn lemma_can_prepare(doc: Entries, id: Seq<char>, c: Json)
    ensures
        can_prepare(doc, id, c) <==> has_only_taken(doc, id, c),
{
    let names = wanted_models(c);
    lemma_plain_words();
    lemma_blank_is_taken();
    assert(can_configure(c) <==> {
        &&& member_of(c, "type"@) matches Some(Json::Str(s)) ==> writable(s)
        &&& is_taken(
            if member_of(c, "baseUrl"@) is Some {
                member_of(c, "baseUrl"@)
            } else if member_of(c, "base_url"@) is Some {
                member_of(c, "base_url"@)
            } else {
                member_of(c, "endpoint"@)
            },
        )
        &&& is_taken(
            if member_of(c, "apiKey"@) is Some {
                member_of(c, "apiKey"@)
            } else {
                member_of(c, "api_key"@)
            },
        )
    });
    assert forall|name: Seq<char>| #[trigger] takes_model(doc, name) <==> has_room_for(doc, name) by {
        assert(model_rows(doc) == rows_in(doc, "models"@));
    }
    if can_give(doc, id, names) {
        assert forall|name: Seq<char>| #[trigger] names_model(c, name) && has_room_for(doc, name) implies writable(
            id,
        ) && writable(name) by {
            lemma_wanted(c, name);
            let i = choose|i: int| 0 <= i < names.len() && names[i] == name;
            assert(takes_model(doc, names[i]));
        }
        assert forall|name: Seq<char>| #[trigger] names_first(c, name) && !has_key(
            doc,
            "default_model"@,
        ) implies writable(name) by {
            lemma_wanted(c, name);
        }
    }
    if has_only_taken(doc, id, c) {
        assert forall|i: int| 0 <= i < names.len() && takes_model(doc, #[trigger] names[i]) implies writable(
            id,
        ) && writable(names[i]) by {
            lemma_wanted(c, names[i]);
            assert(names.contains(names[i]));
            assert(names_model(c, names[i]));
        }
        if names.len() > 0 && !has_key(doc, "default_model"@) {
            lemma_wanted(c, names[0]);
            assert(names_first(c, names[0]));
        }
    }
}

/// The words that are written whatever a configuration says can be written.
proof fn lemma_plain_words()
    ensures
        writable("openai"@),
{
    reveal_strlit("openai");
    assert("openai"@.len() == 6);
}

/// A string without characters can be written.
proof fn lemma_blank_is_taken()
    ensures
        forall|s: Seq<char>| #[trigger] s.len() == 0 ==> writable(s),
{
}

/// A configuration file that is no TOML document is refused, with the reason.
pub proof fn law_prepare_refuses_what_it_cannot_read(
    text: &str,
    id: &str,
    c: Value,
    r: Result<String, AppError>,
    reason: Seq<char>,
)
    requires
        call_ensures(prepare_provider, (Some(text), id, c), r),
        trimmed(text@).len() > 0,
        toml_document(text@) == Err::<Entries, Seq<char>>(reason),
    ensures
        r matches Err(AppError::Config(s)) && s@ == "Failed to parse Kimi config.toml: "@ + reason,
{
}

} // verus!
