//! What is read from a file after it was written.

use crate::changes::{can_prepare, can_remove, lemma_sections, opened, prepared, removed, selected, serves};
use crate::changes::{takes_model, target_model, wanted_key, wanted_kind, wanted_models, wanted_url, with_default};
use crate::error::Failure;
use crate::filters::lemma_filter_source;
use crate::json::{date_mark, elements_in, exact_within, find_member, is_exact, is_like, is_nested};
use crate::json::{is_unmarked, json_document, json_members, json_of, like_within, member_of, nested_within};
use crate::json::{shows_strings, text_in, Json, Members};
use crate::laws::{given, is_configured, law_absent_stays, law_configured_stays, law_default_is_set};
use crate::laws::{law_listing_is_complete, law_prepare_gives_models, law_prepare_keeps_others};
use crate::laws::{law_prepare_writes_settings, law_remove_keeps_others, law_removed_is_gone};
use crate::laws::{law_removed_is_not_in_use, law_selected_is_in_use, lemma_find_prepared};
use crate::laws::{lemma_find_with_models, lemma_prepared_is_configured, lemma_served, rows_in};
use crate::listing::{config_json, current, current_of, key_of, kind_of, listed, lists, model_json};
use crate::listing::{model_rows, models_of, parsed, primary_model, provider_members, providers_of};
use crate::listing::{served_by, url_of};
use crate::mcp::{is_nested_file, root_members, saves_servers, servers_in, servers_of, with_servers};
use crate::saving::FileWrite;
use crate::text::{is_blank, writable};
use crate::toml_access::{renders, toml_document};
use crate::toml_doc::{find, has_key, holds_same, item_at, lemma_find_at, lemma_find_regular, may_vanish};
use crate::toml_doc::{regular, same_kind, string_in, table_in, value_at, value_of, Entries, Toml};
use std::path::PathBuf;
use vstd::prelude::*;

verus! {

// ---------------------------------------------------------------------------
// The configuration file
// ---------------------------------------------------------------------------

/// Paths of one, two and three keys.
pub proof fn lemma_paths(s: Entries, a: Seq<char>, b: Seq<char>, c: Seq<char>)
    ensures
        item_at(s, seq![a]) == find(s, a),
        item_at(s, seq![a, b]) == match table_in(s, a) {
            Some(t) => find(t, b),
            None => None,
        },
        item_at(s, seq![a, b, c]) == match table_in(s, a) {
            Some(t) => match table_in(t, b) {
                Some(u) => find(u, c),
                None => None,
            },
            None => None,
        },
{
    assert(seq![a, b].drop_first() =~= seq![b]);
    assert(seq![a, b, c].drop_first() =~= seq![b, c]);
    assert(seq![b, c].drop_first() =~= seq![c]);
    reveal_with_fuel(item_at, 4);
    if let Some(t) = table_in(s, a) {
        assert(item_at(t, seq![b]) == find(t, b));
        assert(item_at(t, seq![b, c]) == match table_in(t, b) {
            Some(u) => find(u, c),
            None => None,
        });
    }
}

/// Two documents that hold the same, seen from the root, a section and a row of it.
pub proof fn lemma_same(again: Entries, tree: Entries, a: Seq<char>, b: Seq<char>, c: Seq<char>)
    requires
        holds_same(again, tree),
    ensures
        value_of(find(again, a)) == value_of(find(tree, a)),
        string_in(again, a) == string_in(tree, a),
        has_key(again, a) ==> has_key(tree, a) && same_kind(find(again, a)->0, find(tree, a)->0),
        has_key(tree, a) ==> has_key(again, a) || find(tree, a)->0 == Toml::Table(Seq::empty()),
        has_key(tree, a) && a != "providers"@ && a != "models"@ ==> has_key(again, a),
        value_of(find(rows_in(again, a), b)) == value_of(find(rows_in(tree, a), b)),
        has_key(rows_in(again, a), b) <==> has_key(rows_in(tree, a), b),
        table_in(rows_in(again, a), b) is Some <==> table_in(rows_in(tree, a), b) is Some,
        value_of(find(rows_in(rows_in(again, a), b), c)) == value_of(
            find(rows_in(rows_in(tree, a), b), c),
        ),
        string_in(rows_in(rows_in(again, a), b), c) == string_in(rows_in(rows_in(tree, a), b), c),
        has_key(rows_in(rows_in(again, a), b), c) <==> has_key(rows_in(rows_in(tree, a), b), c),
{
    lemma_paths(tree, a, b, c);
    lemma_paths(again, a, b, c);
    assert(value_at(again, seq![a]) == value_at(tree, seq![a]));
    assert(value_at(again, seq![a, b]) == value_at(tree, seq![a, b]));
    assert(value_at(again, seq![a, b, c]) == value_at(tree, seq![a, b, c]));
    assert(item_at(again, seq![a]) is Some ==> item_at(tree, seq![a]) is Some);
    assert(item_at(again, seq![a, b]) is Some ==> item_at(tree, seq![a, b]) is Some);
    assert(item_at(again, seq![a, b, c]) is Some ==> item_at(tree, seq![a, b, c]) is Some);
    assert(item_at(tree, seq![a]) is Some ==> may_vanish(seq![a], item_at(tree, seq![a])->0)
        || item_at(again, seq![a]) is Some);
    assert(item_at(tree, seq![a, b]) is Some ==> item_at(again, seq![a, b]) is Some);
    assert(item_at(tree, seq![a, b, c]) is Some ==> item_at(again, seq![a, b, c]) is Some);
    assert(seq![a][0] == a);
}

/// What the parser reads from a text that was written.
pub open spec fn read_from(text: Seq<char>) -> Entries {
    match toml_document(text) {
        Ok(again) => again,
        Err(_) => Seq::empty(),
    }
}

/// A text with something in a section, or something else than an empty section, is not blank.
proof fn lemma_not_blank(text: Seq<char>, tree: Entries, a: Seq<char>, b: Seq<char>)
    requires
        renders(text, tree),
        has_key(rows_in(tree, a), b) || (has_key(tree, a) && !(find(tree, a)->0 is Table)),
    ensures
        !is_blank(text),
{
    lemma_paths(tree, a, b, ""@);
    if is_blank(text) {
        assert(item_at(tree, seq![a]) is Some ==> may_vanish(seq![a], item_at(tree, seq![a])->0));
        assert(item_at(tree, seq![a, b]) is Some ==> may_vanish(
            seq![a, b],
            item_at(tree, seq![a, b])->0,
        ));
    }
}

/// A document that was written is read, and holds what was written: strings, numbers, truth
/// values, dates and arrays under the same keys, and tables and lists of tables too.
pub proof fn law_written_is_read(text: Seq<char>, tree: Entries)
    requires
        renders(text, tree),
    ensures
        toml_document(text) == Ok::<Entries, Seq<char>>(read_from(text)),
        parsed(text) == Ok::<Entries, Failure>(read_from(text)),
        regular(Toml::Table(read_from(text))),
        holds_same(read_from(text), tree),
{
}

/// The provider in use is read from the file as it was written.
pub proof fn law_current_reads_back(text: Seq<char>, tree: Entries)
    requires
        renders(text, tree),
    ensures
        current(Some(text)) == Ok::<Option<Seq<char>>, Failure>(current_of(tree)),
{
    let again = read_from(text);
    lemma_same(again, tree, "default_model"@, ""@, ""@);
    if let Some(m) = string_in(tree, "default_model"@) {
        lemma_same(again, tree, "models"@, m, "provider"@);
    }
}

/// The names of the members of a listed provider are distinct.
proof fn lemma_member_names()
    ensures
        ({
            let names = seq![
                "name"@,
                "type"@,
                "baseUrl"@,
                "base_url"@,
                "apiKey"@,
                "api_key"@,
                "model"@,
                "models"@,
            ];
            forall|i: int, j: int| 0 <= i < j < 8 ==> names[i] != names[j]
        }),
{
    reveal_strlit("name");
    reveal_strlit("type");
    reveal_strlit("baseUrl");
    reveal_strlit("base_url");
    reveal_strlit("apiKey");
    reveal_strlit("api_key");
    reveal_strlit("model");
    reveal_strlit("models");
    assert("name"@[0] == 'n' && "name"@.len() == 4);
    assert("type"@[0] == 't' && "type"@.len() == 4);
    assert("baseUrl"@[0] == 'b' && "baseUrl"@.len() == 7);
    assert("base_url"@[0] == 'b' && "base_url"@.len() == 8);
    assert("apiKey"@[0] == 'a' && "apiKey"@.len() == 6);
    assert("api_key"@[0] == 'a' && "api_key"@.len() == 7);
    assert("model"@[0] == 'm' && "model"@.len() == 5);
    assert("models"@[0] == 'm' && "models"@.len() == 6);
}

/// The member `name` of the listing of a provider is `text`, and not there where `text` is
/// empty.
pub open spec fn shows_text(provider: Json, name: Seq<char>, text: Seq<char>) -> bool {
    member_of(provider, name) == if text.len() > 0 {
        Some(Json::Str(text))
    } else {
        None
    }
}

/// Two listings of a provider agree, but for its models and the one that stands for it.
pub open spec fn agrees_but_models(a: Json, b: Json) -> bool {
    forall|k: Seq<char>|
        k != "model"@ && k != "models"@ ==> #[trigger] member_of(a, k) == member_of(b, k)
}

/// The members of a listed provider, one by one.
pub proof fn lemma_provider_members(doc: Entries, id: Seq<char>, p: Entries)
    ensures
        ({
            let m = Json::Object(provider_members(doc, id, p));
            let url = url_of(p);
            let key = key_of(p);
            &&& member_of(m, "name"@) == Some(Json::Str(id))
            &&& member_of(m, "type"@) == Some(Json::Str(kind_of(p)))
            &&& shows_text(m, "baseUrl"@, url)
            &&& shows_text(m, "base_url"@, url)
            &&& shows_text(m, "apiKey"@, key)
            &&& shows_text(m, "api_key"@, key)
            &&& text_in(member_of(m, "model"@)) == primary_model(doc, id)
            &&& elements_in(member_of(m, "models"@)) == if models_of(doc, id).len() > 0 {
                Some(models_of(doc, id).map_values(model_json()))
            } else {
                None
            }
            &&& member_of(m, "model"@) is Some <==> primary_model(doc, id) is Some
            &&& member_of(m, "models"@) is Some <==> models_of(doc, id).len() > 0
        }),
{
    lemma_member_names();
    let names = seq![
        "name"@,
        "type"@,
        "baseUrl"@,
        "base_url"@,
        "apiKey"@,
        "api_key"@,
        "model"@,
        "models"@,
    ];
    assert forall|i: int, j: int| 0 <= i < 8 && 0 <= j < 8 && i != j implies names[i]
        != names[j] by {
        if i < j {
            assert(names[i] != names[j]);
        } else {
            assert(names[j] != names[i]);
        }
    }
    assert(names[0] == "name"@ && names[1] == "type"@ && names[2] == "baseUrl"@ && names[3]
        == "base_url"@ && names[4] == "apiKey"@ && names[5] == "api_key"@ && names[6] == "model"@
        && names[7] == "models"@);
}

/// Whether the listing of a provider shows a model of this name.
pub open spec fn shows_model(provider: Json, name: Seq<char>) -> bool {
    elements_in(member_of(provider, "models"@)) matches Some(models) && exists|i: int|
        0 <= i < models.len() && text_in(member_of(#[trigger] models[i], "id"@)) == Some(name)
}

/// A model that a provider serves is shown in the listing of the provider.
proof fn lemma_shows_model(doc: Entries, id: Seq<char>, p: Entries, name: Seq<char>)
    requires
        lists(models_of(doc, id), name),
    ensures
        shows_model(Json::Object(provider_members(doc, id, p)), name),
{
    lemma_provider_members(doc, id, p);
    reveal_strlit("id");
    reveal_strlit("name");
    assert("id"@.len() == 2 && "name"@.len() == 4);
    let models = models_of(doc, id);
    let k = choose|k: int| 0 <= k < models.len() && (#[trigger] models[k]).0 == name;
    let shown = models.map_values(model_json());
    assert(shown[k] == model_json()(models[k]));
    assert(text_in(member_of(shown[k], "id"@)) == Some(name));
}

/// The listing of a provider depends on its settings, and on the document for its models only.
proof fn lemma_agrees(doc: Entries, other: Entries, id: Seq<char>, p: Entries, q: Entries)
    requires
        kind_of(p) == kind_of(q),
        url_of(p) == url_of(q),
        key_of(p) == key_of(q),
    ensures
        agrees_but_models(
            Json::Object(provider_members(doc, id, p)),
            Json::Object(provider_members(other, id, q)),
        ),
{
}

/// The file that there is, or is not, lists the providers of the document that is opened.
proof fn lemma_opened_is_listed(content: Option<Seq<char>>, doc: Entries)
    requires
        opened(content) == Ok::<Entries, Failure>(doc),
    ensures
        listed(content) == Ok::<Members, Failure>(providers_of(doc)),
{
    reveal(Seq::filter);
}

/// What was written is listed.
proof fn lemma_written_is_listed(text: Seq<char>, tree: Entries)
    requires
        renders(text, tree),
    ensures
        listed(Some(text)) == Ok::<Members, Failure>(providers_of(read_from(text))),
{
    let again = read_from(text);
    if is_blank(text) {
        if let Some(rows) = table_in(again, "providers"@) {
            if rows.len() > 0 {
                lemma_find_regular(again, "providers"@);
                lemma_find_at(rows, 0);
                lemma_same(again, tree, "providers"@, rows[0].0, ""@);
                lemma_not_blank(text, tree, "providers"@, rows[0].0);
            }
        }
        reveal(Seq::filter);
        assert(providers_of(again) =~= Seq::empty());
    }
}

/// The providers are listed from the file as they were written: the same ones, each with the
/// settings that it had and with the models that it served; and where the default model is one
/// of these, it stands for the provider.
pub proof fn law_listing_reads_back(text: Seq<char>, tree: Entries, id: Seq<char>)
    requires
        renders(text, tree),
    ensures
        listed(Some(text)) matches Ok(members) && (match table_in(
            rows_in(tree, "providers"@),
            id,
        ) {
            Some(p) => find_member(members, id) matches Some(provider) && agrees_but_models(
                provider,
                Json::Object(provider_members(tree, id, p)),
            ) && (forall|name: Seq<char>| #[trigger]
                shows_model(provider, name) <==> has_key(model_rows(tree), name) && served_by(id)(
                    (name, find(model_rows(tree), name)->0),
                )) && (string_in(tree, "default_model"@) matches Some(m) ==> (has_key(
                model_rows(tree),
                m,
            ) && served_by(id)((m, find(model_rows(tree), m)->0)) ==> member_of(
                provider,
                "model"@,
            ) == Some(Json::Str(m)))),
            None => find_member(members, id) is None,
        }),
{
    let again = read_from(text);
    let members = providers_of(again);
    lemma_written_is_listed(text, tree);
    law_listing_is_complete(again, id);
    lemma_same(again, tree, "providers"@, id, ""@);
    if let Some(p) = table_in(rows_in(tree, "providers"@), id) {
        let q = rows_in(rows_in(again, "providers"@), id);
        lemma_same(again, tree, "providers"@, id, "type"@);
        lemma_same(again, tree, "providers"@, id, "base_url"@);
        lemma_same(again, tree, "providers"@, id, "baseUrl"@);
        lemma_same(again, tree, "providers"@, id, "api_key"@);
        lemma_same(again, tree, "providers"@, id, "apiKey"@);
        assert(table_in(rows_in(again, "providers"@), id) == Some(q));
        lemma_agrees(again, tree, id, q, p);
        lemma_provider_members(again, id, q);
        let provider = Json::Object(provider_members(again, id, q));
        assert forall|name: Seq<char>| #[trigger]
            shows_model(provider, name) <==> has_key(model_rows(tree), name) && served_by(id)(
                (name, find(model_rows(tree), name)->0),
            ) by {
            lemma_same_served(again, tree, id, name);
            if lists(models_of(again, id), name) {
                lemma_shows_model(again, id, q, name);
            }
            if shows_model(provider, name) {
                lemma_shown_is_listed(again, id, q, name);
            }
        }
        if let Some(m) = string_in(tree, "default_model"@) {
            lemma_same(again, tree, "default_model"@, ""@, ""@);
            lemma_same_served(again, tree, id, m);
        }
    }
}

/// The same models are served by a provider in two documents that hold the same.
proof fn lemma_same_served(again: Entries, tree: Entries, id: Seq<char>, name: Seq<char>)
    requires
        holds_same(again, tree),
        regular(Toml::Table(again)),
    ensures
        lists(models_of(again, id), name) <==> has_key(model_rows(tree), name) && served_by(id)(
            (name, find(model_rows(tree), name)->0),
        ),
        lists(models_of(again, id), name) <==> serves(again, id, name),
{
    let rows = model_rows(again);
    if table_in(again, "models"@) is Some {
        lemma_find_regular(again, "models"@);
    }
    lemma_same(again, tree, "models"@, name, "provider"@);
    if has_key(rows, name) && served_by(id)((name, find(rows, name)->0)) {
        lemma_served(again, id, name);
    }
    if serves(again, id, name) {
        let i = choose|i: int|
            0 <= i < rows.len() && (#[trigger] rows[i]).0 == name && served_by(id)(rows[i]);
        lemma_find_at(rows, i);
        assert(rows[i] == (name, find(rows, name)->0));
    }
    if lists(models_of(again, id), name) {
        let models = models_of(again, id);
        let k = choose|k: int| 0 <= k < models.len() && (#[trigger] models[k]).0 == name;
        lemma_filter_source(rows, served_by(id));
        let kept = rows.filter(served_by(id));
        assert(served_by(id)(kept[k]));
        let i = choose|i: int| 0 <= i < rows.len() && rows[i] == kept[k];
        assert(rows[i].0 == name && served_by(id)(rows[i]));
        assert(serves(again, id, name));
        lemma_find_at(rows, i);
        assert(rows[i] == (name, find(rows, name)->0));
    }
}

/// A model that is shown in the listing of a provider is one that it serves.
proof fn lemma_shown_is_listed(doc: Entries, id: Seq<char>, p: Entries, name: Seq<char>)
    requires
        shows_model(Json::Object(provider_members(doc, id, p)), name),
    ensures
        lists(models_of(doc, id), name),
{
    lemma_provider_members(doc, id, p);
    reveal_strlit("id");
    reveal_strlit("name");
    assert("id"@.len() == 2 && "name"@.len() == 4);
    let models = models_of(doc, id);
    let shown = models.map_values(model_json());
    let i = choose|i: int|
        0 <= i < shown.len() && text_in(member_of(#[trigger] shown[i], "id"@)) == Some(name);
    assert(shown[i] == model_json()(models[i]));
    assert(models[i].0 == name);
}

/// After a provider was configured, the file lists it and the providers that it listed before,
/// and no others. The provider has the kind that the configuration asks for, and the address
/// and the key that it gives; the others are listed as they were, but for their models.
pub proof fn law_prepared_reads_back(
    content: Option<Seq<char>>,
    doc: Entries,
    id: Seq<char>,
    c: Json,
    tree: Entries,
    text: Seq<char>,
)
    requires
        opened(content) == Ok::<Entries, Failure>(doc),
        regular(Toml::Table(doc)),
        prepared(doc, id, c) == Ok::<Entries, Failure>(tree),
        renders(text, tree),
    ensures
        listed(content) matches Ok(before) && (listed(Some(text)) matches Ok(after) && {
            &&& forall|p: Seq<char>|
                (#[trigger] find_member(after, p)) is Some <==> p == id || find_member(
                    before,
                    p,
                ) is Some
            &&& forall|p: Seq<char>|
                p != id && (#[trigger] find_member(after, p)) is Some ==> agrees_but_models(
                    find_member(after, p)->0,
                    find_member(before, p)->0,
                )
            &&& find_member(after, id) matches Some(provider) && {
                &&& member_of(provider, "name"@) == Some(Json::Str(id))
                &&& member_of(provider, "type"@) == Some(Json::Str(wanted_kind(c)))
                &&& wanted_url(c) matches Some(url) ==> member_of(provider, "baseUrl"@) == Some(
                    Json::Str(url),
                ) && member_of(provider, "base_url"@) == Some(Json::Str(url))
                &&& wanted_key(c) matches Some(key) ==> member_of(provider, "apiKey"@) == Some(
                    Json::Str(key),
                ) && member_of(provider, "api_key"@) == Some(Json::Str(key))
            }
        }),
{
    lemma_opened_is_listed(content, doc);
    law_prepare_writes_settings(doc, id, c, tree);
    law_prepare_keeps_others(doc, id, c, tree);
    let before = providers_of(doc);
    lemma_written_is_listed(text, tree);
    let after = listed(Some(text))->Ok_0;
    assert forall|p: Seq<char>|
        ((#[trigger] find_member(after, p)) is Some <==> p == id || find_member(before, p) is Some)
            && (p != id && find_member(after, p) is Some ==> agrees_but_models(
            find_member(after, p)->0,
            find_member(before, p)->0,
        )) by {
        law_listing_reads_back(text, tree, p);
        law_listing_is_complete(doc, p);
        if p != id {
            assert(find(rows_in(tree, "providers"@), p) == find(rows_in(doc, "providers"@), p));
            if let Some(row) = table_in(rows_in(doc, "providers"@), p) {
                lemma_agrees(tree, doc, p, row, row);
            }
        }
    }
    law_listing_reads_back(text, tree, id);
    let p = rows_in(rows_in(tree, "providers"@), id);
    lemma_provider_members(tree, id, p);
    lemma_member_names();
    let provider = find_member(after, id)->0;
    let told = Json::Object(provider_members(tree, id, p));
    assert(agrees_but_models(provider, told));
    let names = seq![
        "name"@,
        "type"@,
        "baseUrl"@,
        "base_url"@,
        "apiKey"@,
        "api_key"@,
        "model"@,
        "models"@,
    ];
    assert(names[0] == "name"@ && names[1] == "type"@ && names[2] == "baseUrl"@ && names[3]
        == "base_url"@ && names[4] == "apiKey"@ && names[5] == "api_key"@ && names[6] == "model"@
        && names[7] == "models"@);
    assert(member_of(provider, "name"@) == member_of(told, "name"@));
    assert(member_of(provider, "type"@) == member_of(told, "type"@));
    assert(member_of(provider, "baseUrl"@) == member_of(told, "baseUrl"@));
    assert(member_of(provider, "base_url"@) == member_of(told, "base_url"@));
    assert(member_of(provider, "apiKey"@) == member_of(told, "apiKey"@));
    assert(member_of(provider, "api_key"@) == member_of(told, "api_key"@));
}

/// A model that a configuration names is read back from the file as one that the provider
/// serves, with the same inputs left out as in `law_prepare_gives_models`; and where it is the
/// default model, it stands for the provider.
pub proof fn law_prepared_models_read_back(
    doc: Entries,
    id: Seq<char>,
    c: Json,
    tree: Entries,
    name: Seq<char>,
    text: Seq<char>,
)
    requires
        prepared(doc, id, c) == Ok::<Entries, Failure>(tree),
        wanted_models(c).contains(name),
        has_key(doc, "models"@) ==> table_in(doc, "models"@) is Some,
        has_key(model_rows(doc), name) ==> table_in(model_rows(doc), name) is Some,
        renders(text, tree),
    ensures
        listed(Some(text)) matches Ok(members) && (find_member(members, id) matches Some(provider)
            && shows_model(provider, name) && (string_in(tree, "default_model"@) == Some(name)
            ==> member_of(provider, "model"@) == Some(Json::Str(name)))),
{
    law_prepare_gives_models(doc, id, c, tree, name);
    law_prepare_writes_settings(doc, id, c, tree);
    law_listing_reads_back(text, tree, id);
}

/// A provider that is configured is so in what is read of what was written.
proof fn lemma_configured_reads_back(again: Entries, tree: Entries, id: Seq<char>, c: Json)
    requires
        holds_same(again, tree),
        is_configured(tree, id, c),
        table_in(tree, "models"@) is Some && wanted_models(c).len() > 0 ==> table_in(
            tree,
            "models"@,
        )->0.len() > 0,
    ensures
        is_configured(again, id, c),
{
    let names = wanted_models(c);
    lemma_same(again, tree, "providers"@, id, "type"@);
    lemma_same(again, tree, "providers"@, id, "base_url"@);
    lemma_same(again, tree, "providers"@, id, "api_key"@);
    lemma_sections();
    lemma_same(again, tree, "default_model"@, ""@, ""@);
    lemma_same(again, tree, "models"@, ""@, ""@);
    if let Some(rows) = table_in(again, "models"@) {
        assert forall|i: int| 0 <= i < names.len() implies {
            &&& has_key(rows, #[trigger] names[i])
            &&& find(rows, names[i])->0 is Table ==> given(find(rows, names[i])->0, id, names[i])
        } by {
            lemma_same(again, tree, "models"@, names[i], "provider"@);
            lemma_same(again, tree, "models"@, names[i], "model"@);
        }
    }
}

/// Configuring a provider again in the same way, after the file was written and read, succeeds
/// and writes what holds the same.
pub proof fn law_prepare_twice_reads_back(
    doc: Entries,
    id: Seq<char>,
    c: Json,
    tree: Entries,
    text: Seq<char>,
    second: Seq<char>,
)
    requires
        can_prepare(doc, id, c),
        prepared(doc, id, c) == Ok::<Entries, Failure>(tree),
        renders(text, tree),
    ensures
        opened(Some(text)) == Ok::<Entries, Failure>(read_from(text)),
        can_prepare(read_from(text), id, c),
        prepared(read_from(text), id, c) == Ok::<Entries, Failure>(read_from(text)),
        renders(second, read_from(text)) ==> holds_same(read_from(second), read_from(text)),
{
    let again = read_from(text);
    let names = wanted_models(c);
    lemma_prepared_is_configured(doc, id, c, tree);
    lemma_configured_reads_back(again, tree, id, c);
    law_configured_stays(again, id, c);
    lemma_not_blank(text, tree, "providers"@, id);
    lemma_sections();
    assert forall|i: int| 0 <= i < names.len() && takes_model(again, #[trigger] names[i]) implies
        writable(id) && writable(names[i]) by {
        let name = names[i];
        assert(names.contains(name));
        lemma_find_prepared(doc, id, c, tree, "models"@);
        lemma_find_with_models(model_rows(doc), id, names, name);
        lemma_same(again, tree, "models"@, name, ""@);
        assert(has_key(again, "models"@));
        assert(takes_model(doc, name));
    }
}

/// A provider that was put to use is read back from the file as the one in use, with the same
/// inputs left out as in `law_selected_is_in_use`.
pub proof fn law_selected_reads_back(doc: Entries, id: Seq<char>, c: Json, text: Seq<char>)
    requires
        has_key(doc, "models"@) ==> table_in(doc, "models"@) is Some,
        has_key(model_rows(doc), target_model(doc, id, c)) ==> table_in(
            model_rows(doc),
            target_model(doc, id, c),
        ) is Some,
        renders(text, selected(doc, id, c)),
    ensures
        current(Some(text)) == Ok::<Option<Seq<char>>, Failure>(Some(id)),
{
    law_selected_is_in_use(doc, id, c);
    law_current_reads_back(text, selected(doc, id, c));
}

/// After a provider was removed, the file lists the others that it listed before, as they were
/// but for their models, and not that one, which is not in use either.
pub proof fn law_removed_reads_back(doc: Entries, id: Seq<char>, text: Seq<char>)
    requires
        regular(Toml::Table(doc)),
        renders(text, removed(doc, id)),
    ensures
        listed(Some(text)) matches Ok(after) && {
            &&& find_member(after, id) is None
            &&& forall|p: Seq<char>|
                (#[trigger] find_member(after, p)) is Some <==> p != id && find_member(
                    providers_of(doc),
                    p,
                ) is Some
            &&& forall|p: Seq<char>|
                (#[trigger] find_member(after, p)) matches Some(provider) ==> agrees_but_models(
                    provider,
                    find_member(providers_of(doc), p)->0,
                )
        },
        current(Some(text)) matches Ok(found) && found != Some(id) && (current_of(doc) != Some(id)
            ==> found == current_of(doc)),
{
    let tree = removed(doc, id);
    law_removed_is_gone(doc, id);
    law_removed_is_not_in_use(doc, id);
    law_remove_keeps_others(doc, id);
    law_current_reads_back(text, tree);
    lemma_written_is_listed(text, tree);
    let after = listed(Some(text))->Ok_0;
    assert forall|p: Seq<char>|
        ((#[trigger] find_member(after, p)) is Some <==> p != id && find_member(
            providers_of(doc),
            p,
        ) is Some) && (find_member(after, p) matches Some(provider) ==> agrees_but_models(
            provider,
            find_member(providers_of(doc), p)->0,
        )) by {
        law_listing_reads_back(text, tree, p);
        law_listing_is_complete(doc, p);
        if p != id {
            assert(find(rows_in(tree, "providers"@), p) == find(rows_in(doc, "providers"@), p));
            if let Some(row) = table_in(rows_in(doc, "providers"@), p) {
                lemma_agrees(tree, doc, p, row, row);
            }
        }
    }
    assert(!(find_member(after, id) is Some));
}

/// Removing a provider again, after the file was written and read, succeeds and writes what
/// holds the same.
pub proof fn law_remove_twice_reads_back(
    doc: Entries,
    id: Seq<char>,
    text: Seq<char>,
    second: Seq<char>,
)
    requires
        regular(Toml::Table(doc)),
        renders(text, removed(doc, id)),
    ensures
        parsed(text) == Ok::<Entries, Failure>(read_from(text)),
        can_remove(read_from(text), id),
        removed(read_from(text), id) == read_from(text),
        renders(second, read_from(text)) ==> holds_same(read_from(second), read_from(text)),
{
    let again = read_from(text);
    let tree = removed(doc, id);
    law_removed_is_gone(doc, id);
    lemma_same(again, tree, "providers"@, id, ""@);
    assert forall|name: Seq<char>| !#[trigger] serves(again, id, name) by {
        lemma_same_served(again, tree, id, name);
        if serves(again, id, name) {
            lemma_served(tree, id, name);
        }
    }
    law_absent_stays(again, id);
}

/// A default model that was set is read back from the file, in the configuration as JSON too.
/// That is read where no table has the key by which `toml` marks a date; where it is read
/// nevertheless, only a root with that key is left out.
pub proof fn law_default_reads_back(doc: Entries, name: Seq<char>, text: Seq<char>)
    requires
        renders(text, with_default(doc, name)),
    ensures
        string_in(read_from(text), "default_model"@) == Some(name),
        is_unmarked(Toml::Table(read_from(text))) ==> (config_json(Some(text)) matches Ok(v)
            && member_of(v, "default_model"@) == Some(Json::Str(name))),
        config_json(Some(text)) matches Ok(v) ==> !has_key(doc, date_mark()) && shows_strings(text, v)
            ==> member_of(v, "default_model"@) == Some(Json::Str(name)),
{
    let tree = with_default(doc, name);
    let again = read_from(text);
    law_default_is_set(doc, name, name);
    lemma_not_blank(text, tree, "default_model"@, ""@);
    lemma_same(again, tree, "default_model"@, ""@, ""@);
    lemma_same(again, tree, date_mark(), ""@, ""@);
    reveal_strlit("default_model");
    reveal_strlit("$__toml_private_datetime");
    assert(date_mark().len() == 24 && "default_model"@.len() == 13);
    assert(find(tree, date_mark()) == find(doc, date_mark()));
    assert(string_in(again, "default_model"@) == Some(name));
    lemma_json_members(again, "default_model"@);
}

/// The members of a table as JSON are its entries as JSON.
pub proof fn lemma_json_members(s: Entries, key: Seq<char>)
    ensures
        json_members(s).contains_key(key) <==> has_key(s, key),
        has_key(s, key) ==> json_members(s)[key] == json_of(find(s, key)->0),
    decreases s.len(),
{
    if s.len() > 0 {
        lemma_json_members(s.drop_last(), key);
    }
}

/// The configuration as JSON has a member for each key of the document, and no others.
pub proof fn law_config_json_is_the_document(text: Seq<char>, doc: Entries, key: Seq<char>)
    requires
        !is_blank(text),
        toml_document(text) == Ok::<Entries, Seq<char>>(doc),
        is_unmarked(Toml::Table(doc)),
    ensures
        config_json(Some(text)) matches Ok(v) && member_of(v, key) == match find(doc, key) {
            Some(t) => Some(json_of(t)),
            None => None,
        },
{
    lemma_json_members(doc, key);
}

// ---------------------------------------------------------------------------
// The file of the MCP servers
// ---------------------------------------------------------------------------

/// The servers in what is written are those that were to be written, and everything else that
/// was in the file is kept.
pub proof fn law_servers_are_written(content: Option<Seq<char>>, servers: Map<Seq<char>, Json>)
    ensures
        servers_of(with_servers(content, servers)) == servers,
        forall|k: Seq<char>|
            k != "mcpServers"@ ==> #[trigger] member_of(with_servers(content, servers), k)
                == member_of(Json::Object(root_members(content)), k),
{
}

/// Two objects that are like each other have the same members, like each other.
proof fn lemma_like_members(a: Map<Seq<char>, Json>, b: Map<Seq<char>, Json>)
    requires
        is_like(Json::Object(a), Json::Object(b)),
    ensures
        a.dom() == b.dom(),
        forall|k: Seq<char>| #[trigger] a.contains_key(k) ==> is_like(a[k], b[k]),
{
    assert(like_within(Json::Object(a), Json::Object(b), 1));
    assert forall|k: Seq<char>| #[trigger] a.contains_key(k) implies is_like(a[k], b[k]) by {
        assert forall|n: nat| #[trigger] like_within(a[k], b[k], n) by {
            assert(like_within(Json::Object(a), Json::Object(b), n + 1));
            assert((n + 1 - 1) as nat == n);
        }
    }
}

/// A value that is like one without numbers to be rounded is that one.
proof fn lemma_like_exact(a: Json, b: Json, n: nat)
    requires
        like_within(a, b, n + 1),
        exact_within(b, n),
    ensures
        a == b,
    decreases n,
{
    match (a, b) {
        (Json::Array(s), Json::Array(t)) => {
            assert forall|i: int| 0 <= i < s.len() implies s[i] == t[i] by {
                assert(exact_within(t[i], (n - 1) as nat));
                assert(like_within(s[i], t[i], (n + 1 - 1) as nat));
                lemma_like_exact(s[i], t[i], (n - 1) as nat);
            }
            assert(s =~= t);
        },
        (Json::Object(s), Json::Object(t)) => {
            assert forall|k: Seq<char>| #[trigger] s.contains_key(k) implies s[k] == t[k] by {
                assert(t.dom().contains(k));
                assert(t.contains_key(k));
                assert(exact_within(t[k], (n - 1) as nat));
                assert(like_within(s[k], t[k], (n + 1 - 1) as nat));
                lemma_like_exact(s[k], t[k], (n - 1) as nat);
            }
            assert(s =~= t);
        },
        _ => {},
    }
}

/// What is like a value that the parser does not round is the same.
pub proof fn law_like_exact_is_same(a: Json, b: Json)
    requires
        is_like(a, b),
        is_exact(b),
    ensures
        a == b,
{
    assert(like_within(a, b, 128));
    lemma_like_exact(a, b, 127);
}

/// What is exact within some nesting is so within more, and is nested no deeper.
proof fn lemma_exact_nested(v: Json, n: nat, m: nat)
    requires
        exact_within(v, n),
        n <= m,
    ensures
        exact_within(v, m),
        nested_within(v, n),
    decreases n,
{
    match v {
        Json::Array(a) => {
            assert forall|i: int| 0 <= i < a.len() implies exact_within(
                #[trigger] a[i],
                (m - 1) as nat,
            ) && nested_within(a[i], (n - 1) as nat) by {
                lemma_exact_nested(a[i], (n - 1) as nat, (m - 1) as nat);
            }
        },
        Json::Object(o) => {
            assert forall|k: Seq<char>| #[trigger] o.contains_key(k) implies exact_within(
                o[k],
                (m - 1) as nat,
            ) && nested_within(o[k], (n - 1) as nat) by {
                lemma_exact_nested(o[k], (n - 1) as nat, (m - 1) as nat);
            }
        },
        _ => {},
    }
}

/// What is exact, and nested within `n`, is exact within `n`.
proof fn lemma_exact_within(v: Json, m: nat, n: nat)
    requires
        exact_within(v, m),
        nested_within(v, n),
    ensures
        exact_within(v, n),
    decreases n,
{
    match v {
        Json::Array(a) => {
            assert forall|i: int| 0 <= i < a.len() implies exact_within(
                #[trigger] a[i],
                (n - 1) as nat,
            ) by {
                lemma_exact_within(a[i], (m - 1) as nat, (n - 1) as nat);
            }
        },
        Json::Object(o) => {
            assert forall|k: Seq<char>| #[trigger] o.contains_key(k) implies exact_within(
                o[k],
                (n - 1) as nat,
            ) by {
                lemma_exact_within(o[k], (m - 1) as nat, (n - 1) as nat);
            }
        },
        _ => {},
    }
}

/// The servers that were written are read back from the file: all of them and no others, each
/// like it was written, so the same but for numbers that are not integers; and what else was
/// in the file is read back in the same way.
pub proof fn law_servers_read_back(
    dir: PathBuf,
    content: Option<Seq<char>>,
    servers: Map<Seq<char>, Json>,
    w: FileWrite,
    again: Map<Seq<char>, Json>,
)
    requires
        saves_servers(w, dir, with_servers(content, servers)),
        servers_in(Some(w.content@)) == Ok::<Map<Seq<char>, Json>, Seq<char>>(again),
    ensures
        again.dom() == servers.dom(),
        forall|name: Seq<char>| #[trigger]
            servers.contains_key(name) ==> is_like(again[name], servers[name]),
        forall|name: Seq<char>| #[trigger]
            servers.contains_key(name) && is_exact(servers[name]) ==> again[name] == servers[name],
        is_exact(Json::Object(servers)) ==> again == servers,
        root_members(Some(w.content@)).dom() == root_members(content).dom().insert("mcpServers"@),
        forall|k: Seq<char>|
            k != "mcpServers"@ && #[trigger] root_members(content).contains_key(k) ==> is_like(
                root_members(Some(w.content@))[k],
                root_members(content)[k],
            ),
{
    let root = with_servers(content, servers);
    law_servers_are_written(content, servers);
    let v = json_document(w.content@)->Ok_0;
    assert(like_within(v, root, 1));
    let members = v->Object_0;
    lemma_like_members(members, root->Object_0);
    assert((root->Object_0).dom() =~= root_members(content).dom().insert("mcpServers"@));
    assert(members.dom().contains("mcpServers"@));
    assert(members.contains_key("mcpServers"@));
    let read = members["mcpServers"@];
    assert(is_like(read, Json::Object(servers)));
    assert(like_within(read, Json::Object(servers), 1));
    lemma_like_members(read->Object_0, servers);
    assert(again == read->Object_0);
    assert forall|name: Seq<char>| #[trigger] servers.contains_key(name) implies is_like(
        again[name],
        servers[name],
    ) && (is_exact(servers[name]) ==> again[name] == servers[name]) by {
        assert(again.dom().contains(name));
        assert(again.contains_key(name));
        if is_exact(servers[name]) {
            law_like_exact_is_same(again[name], servers[name]);
        }
    }
    if is_exact(Json::Object(servers)) {
        law_like_exact_is_same(read, Json::Object(servers));
    }
    assert forall|k: Seq<char>|
        k != "mcpServers"@ && #[trigger] root_members(content).contains_key(k) implies is_like(
        root_members(Some(w.content@))[k],
        root_members(content)[k],
    ) by {
        assert(members.dom().contains(k));
        assert(members.contains_key(k));
    }
}

/// What was written is read, unless the servers are nested deeper than the parser goes, with
/// the file and the object of the servers counted; and servers that hold no number that is not
/// an integer are then read as they were written, whatever else the file held before.
pub proof fn law_set_servers_are_read(
    dir: PathBuf,
    content: Option<Seq<char>>,
    servers: Map<Seq<char>, Json>,
    w: FileWrite,
)
    requires
        saves_servers(w, dir, with_servers(content, servers)),
        is_nested_file(content),
    ensures
        nested_within(Json::Object(servers), 126) ==> servers_in(Some(w.content@)) is Ok,
        exact_within(Json::Object(servers), 126) ==> servers_in(Some(w.content@)) == Ok::<
            Map<Seq<char>, Json>,
            Seq<char>,
        >(servers),
{
    let root = with_servers(content, servers);
    if exact_within(Json::Object(servers), 126) {
        lemma_exact_nested(Json::Object(servers), 126, 127);
    }
    if nested_within(Json::Object(servers), 126) {
        let members = root->Object_0;
        assert forall|k: Seq<char>| #[trigger] members.contains_key(k) implies nested_within(
            members[k],
            126,
        ) by {
            if k != "mcpServers"@ {
                assert(root_members(content).contains_key(k));
                assert(nested_within(Json::Object(root_members(content)), 127));
            }
        }
        assert(is_nested(root));
        assert(servers_in(Some(w.content@)) is Ok);
        let again = servers_in(Some(w.content@))->Ok_0;
        law_servers_read_back(dir, content, servers, w, again);
    }
}

/// A server that was added to the file is read from it, beside those that were there.
pub proof fn law_synced_server_is_read(
    dir: PathBuf,
    content: Option<Seq<char>>,
    servers: Map<Seq<char>, Json>,
    id: Seq<char>,
    server: Json,
    w: FileWrite,
    again: Map<Seq<char>, Json>,
)
    requires
        servers_in(content) == Ok::<Map<Seq<char>, Json>, Seq<char>>(servers),
        saves_servers(w, dir, with_servers(content, servers.insert(id, server))),
        servers_in(Some(w.content@)) == Ok::<Map<Seq<char>, Json>, Seq<char>>(again),
    ensures
        again.contains_key(id),
        is_like(again[id], server),
        is_exact(server) ==> again[id] == server,
        again.dom() == servers.dom().insert(id),
        forall|name: Seq<char>|
            name != id && #[trigger] servers.contains_key(name) ==> is_like(
                again[name],
                servers[name],
            ) && (is_exact(servers[name]) ==> again[name] == servers[name]),
{
    let all = servers.insert(id, server);
    law_servers_read_back(dir, content, all, w, again);
    assert(all.contains_key(id));
    assert(all.dom() =~= servers.dom().insert(id));
    assert(again.dom().contains(id));
    assert forall|name: Seq<char>|
        name != id && #[trigger] servers.contains_key(name) implies is_like(
        again[name],
        servers[name],
    ) && (is_exact(servers[name]) ==> again[name] == servers[name]) by {
        assert(all.contains_key(name));
    }
}

/// A server that was removed from the file is not read from it any more; the others are.
pub proof fn law_removed_server_is_gone(
    dir: PathBuf,
    content: Option<Seq<char>>,
    servers: Map<Seq<char>, Json>,
    id: Seq<char>,
    w: FileWrite,
    again: Map<Seq<char>, Json>,
)
    requires
        servers_in(content) == Ok::<Map<Seq<char>, Json>, Seq<char>>(servers),
        saves_servers(w, dir, with_servers(content, servers.remove(id))),
        servers_in(Some(w.content@)) == Ok::<Map<Seq<char>, Json>, Seq<char>>(again),
    ensures
        !again.contains_key(id),
        again.dom() == servers.dom().remove(id),
        forall|name: Seq<char>|
            name != id && #[trigger] servers.contains_key(name) ==> is_like(
                again[name],
                servers[name],
            ) && (is_exact(servers[name]) ==> again[name] == servers[name]),
{
    let left = servers.remove(id);
    law_servers_read_back(dir, content, left, w, again);
    assert(left.dom() =~= servers.dom().remove(id));
    assert(!again.dom().contains(id));
    assert forall|name: Seq<char>|
        name != id && #[trigger] servers.contains_key(name) implies is_like(
        again[name],
        servers[name],
    ) && (is_exact(servers[name]) ==> again[name] == servers[name]) by {
        assert(left.contains_key(name));
    }
}

/// Removing a server that was added anew leaves the servers as they were before it was added,
/// where these hold no number that is not an integer, whatever else the file holds.
pub proof fn law_removal_undoes_sync(
    dir: PathBuf,
    content: Option<Seq<char>>,
    servers: Map<Seq<char>, Json>,
    id: Seq<char>,
    server: Json,
    added: FileWrite,
    between: Map<Seq<char>, Json>,
    dropped: FileWrite,
)
    requires
        servers_in(content) == Ok::<Map<Seq<char>, Json>, Seq<char>>(servers),
        is_nested_file(content),
        !servers.contains_key(id),
        is_exact(Json::Object(servers)),
        saves_servers(added, dir, with_servers(content, servers.insert(id, server))),
        servers_in(Some(added.content@)) == Ok::<Map<Seq<char>, Json>, Seq<char>>(between),
        is_nested_file(Some(added.content@)),
        saves_servers(dropped, dir, with_servers(Some(added.content@), between.remove(id))),
    ensures
        servers_in(Some(dropped.content@)) == Ok::<Map<Seq<char>, Json>, Seq<char>>(servers),
{
    law_synced_server_is_read(dir, content, servers, id, server, added, between);
    assert forall|name: Seq<char>| #[trigger] servers.contains_key(name) implies exact_within(
        servers[name],
        126,
    ) && between[name] == servers[name] by {
        lemma_exact_nested(servers[name], 126, 127);
    }
    assert(between.remove(id) =~= servers) by {
        assert forall|name: Seq<char>| #[trigger] between.remove(id).contains_key(name)
            <==> servers.contains_key(name) by {
            assert(between.dom().contains(name) <==> servers.dom().insert(id).contains(name));
        }
    }
    assert(nested_within(Json::Object(servers), 126)) by {
        match content {
            Some(text) => {
                let root = json_document(text)->Ok_0;
                if let Some(found) = member_of(root, "mcpServers"@) {
                    assert((root->Object_0).contains_key("mcpServers"@));
                    assert(nested_within(found, 126));
                }
            },
            None => {},
        }
    }
    lemma_exact_within(Json::Object(servers), 127, 126);
    law_set_servers_are_read(dir, Some(added.content@), servers, dropped);
}

} // verus!
