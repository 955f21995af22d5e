//! What reading the settings promises, said of the text that is read.

use crate::choice_promises::lemma_names_provider;
use crate::error::AppError;
use crate::filters::lemma_filter_positions;
use crate::json::{is_unmarked, json_list, json_members, json_of, json_tree, map_members, member_of};
use crate::json::{toml_json, Json};
use crate::laws::{law_listing_is_complete, law_primary_is_served, lemma_served, rows_in};
use crate::listing::{get_current_provider_id, get_provider, get_providers, is_row, labelled, lists};
use crate::listing::{model_json, model_rows, models_of, provider_entry, provider_members, providers_of};
use crate::listing::{read_kimi_config_json, served_by};
use crate::prepare_promises::lemma_opened;
use crate::promises::{is_document_of, is_first_of, names_provider};
use crate::round_trips::{lemma_json_members, lemma_provider_members};
use crate::text::trimmed;
use crate::toml_access::toml_document;
use crate::toml_doc::{find, has_key, lemma_find_at, lemma_find_regular, regular, string_in, table_in};
use crate::toml_doc::{Entries, Toml};
use indexmap::IndexMap;
use serde_json::Value;
use vstd::prelude::*;

verus! {

/// The string that an item is, or `other`.
pub open spec fn string_or(t: Option<Toml>, other: Seq<char>) -> Seq<char> {
    match t {
        Some(Toml::Str(s)) => s,
        _ => other,
    }
}

/// A value shows `s` under two names, and neither where `s` is empty.
pub open spec fn shows_twice(v: Json, first: Seq<char>, second: Seq<char>, s: Seq<char>) -> bool {
    &&& s.len() > 0 ==> member_of(v, first) == Some(Json::Str(s)) && member_of(v, second) == Some(
        Json::Str(s),
    )
    &&& s.len() == 0 ==> member_of(v, first) is None && member_of(v, second) is None
}

/// A provider is listed where its row is a table, and not where there is something else, or
/// nothing. The listing shows its name, its kind, which is "openai" where the row says none,
/// its address and its key, and beside these at most a model and a list of models.
pub proof fn law_listing_shows_the_settings(
    content: Option<&str>,
    id: &str,
    r: Result<Option<Value>, AppError>,
    doc: Entries,
)
    requires
        call_ensures(get_provider, (content, id), r),
        is_document_of(content, doc),
    ensures
        match find(rows_in(doc, "providers"@), id@) {
            Some(Toml::Table(p)) => r matches Ok(Some(v)) && ({
                let shown = json_tree(v);
                &&& member_of(shown, "name"@) == Some(Json::Str(id@))
                &&& member_of(shown, "type"@) == Some(
                    Json::Str(string_or(find(p, "type"@), "openai"@)),
                )
                &&& shows_twice(
                    shown,
                    "baseUrl"@,
                    "base_url"@,
                    if has_key(p, "base_url"@) {
                        string_or(find(p, "base_url"@), Seq::empty())
                    } else {
                        string_or(find(p, "baseUrl"@), Seq::empty())
                    },
                )
                &&& shows_twice(
                    shown,
                    "apiKey"@,
                    "api_key"@,
                    if has_key(p, "api_key"@) {
                        string_or(find(p, "api_key"@), Seq::empty())
                    } else {
                        string_or(find(p, "apiKey"@), Seq::empty())
                    },
                )
                &&& forall|k: Seq<char>|
                    (#[trigger] member_of(shown, k)) is Some ==> k == "name"@ || k == "type"@ || k
                        == "baseUrl"@ || k == "base_url"@ || k == "apiKey"@ || k == "api_key"@ || k
                        == "model"@ || k == "models"@
            }),
            _ => r == Ok::<Option<Value>, AppError>(None),
        },
{
    lemma_shown(content, id, r, doc);
    if let Some(Toml::Table(p)) = find(rows_in(doc, "providers"@), id@) {
        lemma_provider_members(doc, id@, p);
        reveal_strlit("");
        assert(""@ =~= Seq::empty());
    }
}

/// What a provider is listed as.
proof fn lemma_shown(
    content: Option<&str>,
    id: &str,
    r: Result<Option<Value>, AppError>,
    doc: Entries,
)
    requires
        call_ensures(get_provider, (content, id), r),
        is_document_of(content, doc),
    ensures
        regular(Toml::Table(doc)),
        match table_in(rows_in(doc, "providers"@), id@) {
            Some(p) => r matches Ok(Some(v)) && json_tree(v) == Json::Object(
                provider_members(doc, id@, p),
            ),
            None => r == Ok::<Option<Value>, AppError>(None),
        },
{
    lemma_opened(content, doc);
    law_listing_is_complete(doc, id@);
    reveal(Seq::filter);
    if doc.len() == 0 {
        assert(doc =~= Seq::empty());
        assert(providers_of(doc) =~= Seq::empty());
    }
}

/// The model that is shown for a provider is the default model where the row of that names the
/// provider, else the first whose row does; none is shown where no row does.
pub proof fn law_listing_shows_the_model(
    content: Option<&str>,
    id: &str,
    v: Value,
    doc: Entries,
    i: int,
)
    requires
        call_ensures(get_provider, (content, id), Ok::<Option<Value>, AppError>(Some(v))),
        is_document_of(content, doc),
    ensures
        ({
            let rows = rows_in(doc, "models"@);
            let shown = member_of(json_tree(v), "model"@);
            let default_of = find(doc, "default_model"@) matches Some(Toml::Str(m)) && (find(
                rows,
                m,
            ) matches Some(t) && names_provider(t, id@));
            &&& default_of ==> (find(doc, "default_model"@) matches Some(Toml::Str(m)) && shown == Some(
                Json::Str(m),
            ))
            &&& !default_of && is_first_of(rows, id@, i) ==> shown == Some(Json::Str(rows[i].0))
            &&& (forall|j: int| 0 <= j < rows.len() ==> !names_provider((#[trigger] rows[j]).1, id@))
                ==> shown is None
        }),
{
    let rows = rows_in(doc, "models"@);
    lemma_shown(content, id, Ok(Some(v)), doc);
    let p = table_in(rows_in(doc, "providers"@), id@)->0;
    lemma_provider_members(doc, id@, p);
    lemma_names_provider(id@);
    let keep = served_by(id@);
    assert(rows == model_rows(doc));
    let served = rows.filter(keep);
    let models = models_of(doc, id@);
    let places = lemma_filter_positions(rows, keep);
    assert forall|j: int| 0 <= j < models.len() implies (#[trigger] models[j]).0
        == rows[places[j]].0 by {
        assert(served[j] == rows[places[j]]);
    }
    if table_in(doc, "models"@) is Some {
        lemma_find_regular(doc, "models"@);
    }
    if let Some(Toml::Str(m)) = find(doc, "default_model"@) {
        if lists(models, m) {
            let k = choose|k: int| 0 <= k < models.len() && (#[trigger] models[k]).0 == m;
            lemma_find_at(rows, places[k]);
            assert(keep(rows[places[k]]));
        }
        if has_key(rows, m) && names_provider(find(rows, m)->0, id@) {
            assert(keep((m, find(rows, m)->0)));
            lemma_served(doc, id@, m);
        }
    }
    if is_first_of(rows, id@, i) {
        assert(keep(rows[i]));
        let k = choose|k: int| 0 <= k < places.len() && places[k] == i;
        if places[0] < i {
            assert(keep(rows[places[0]]));
            assert(!names_provider(rows[places[0]].1, id@));
        }
        assert(places[0] <= places[k]);
        assert(models[0].0 == rows[i].0);
    }
    if models.len() > 0 {
        assert(keep(rows[places[0]]));
    }
    law_primary_is_served(doc, id@);
}

/// An element of a list of models shows a row: its key as "id", and as "name" the string under
/// "display_name", or the key again where there is no string; and nothing else.
pub open spec fn shows_row(e: Json, row: (Seq<char>, Toml)) -> bool {
    &&& member_of(e, "id"@) == Some(Json::Str(row.0))
    &&& row.1 matches Toml::Table(t) && member_of(e, "name"@) == Some(
        Json::Str(
            match find(t, "display_name"@) {
                Some(Toml::Str(s)) => s,
                _ => row.0,
            },
        ),
    )
    &&& forall|k: Seq<char>| (#[trigger] member_of(e, k)) is Some ==> k == "id"@ || k == "name"@
}

/// The list of models of a provider shows the rows that name it, each once and in their order,
/// and no others; there is no list where no row names it. The places of the rows come back.
pub proof fn law_listing_shows_the_models(
    content: Option<&str>,
    id: &str,
    v: Value,
    doc: Entries,
) -> (places: Seq<int>)
    requires
        call_ensures(get_provider, (content, id), Ok::<Option<Value>, AppError>(Some(v))),
        is_document_of(content, doc),
    ensures
        ({
            let rows = rows_in(doc, "models"@);
            &&& forall|k: int, l: int|
                0 <= k < l < places.len() ==> #[trigger] places[k] < #[trigger] places[l]
            &&& forall|i: int|
                0 <= i < rows.len() && names_provider((#[trigger] rows[i]).1, id@) ==> exists|k: int|
                    0 <= k < places.len() && places[k] == i
            &&& forall|k: int|
                0 <= k < places.len() ==> 0 <= #[trigger] places[k] < rows.len() && names_provider(
                    rows[places[k]].1,
                    id@,
                )
            &&& match member_of(json_tree(v), "models"@) {
                Some(Json::Array(a)) => a.len() > 0 && a.len() == places.len() && forall|k: int|
                    0 <= k < a.len() ==> shows_row(#[trigger] a[k], rows[places[k]]),
                Some(_) => false,
                None => places.len() == 0,
            }
        }),
{
    let rows = rows_in(doc, "models"@);
    lemma_shown(content, id, Ok(Some(v)), doc);
    let p = table_in(rows_in(doc, "providers"@), id@)->0;
    lemma_provider_members(doc, id@, p);
    lemma_names_provider(id@);
    let keep = served_by(id@);
    assert(rows == model_rows(doc));
    let served = rows.filter(keep);
    let models = models_of(doc, id@);
    let places = lemma_filter_positions(rows, keep);
    assert forall|k: int| 0 <= k < places.len() implies 0 <= #[trigger] places[k] < rows.len()
        && names_provider(rows[places[k]].1, id@) by {
        assert(keep(rows[places[k]]));
    }
    assert forall|i: int| 0 <= i < rows.len() && names_provider(
        (#[trigger] rows[i]).1,
        id@,
    ) implies exists|k: int| 0 <= k < places.len() && places[k] == i by {
        assert(keep(rows[i]));
    }
    if models.len() > 0 {
        let a = models.map_values(model_json());
        assert forall|k: int| 0 <= k < a.len() implies shows_row(#[trigger] a[k], rows[places[k]]) by {
            assert(served[k] == rows[places[k]]);
            assert(models[k] == labelled()(served[k]));
            assert(a[k] == model_json()(models[k]));
            assert(keep(rows[places[k]]));
            reveal_strlit("id");
            reveal_strlit("name");
            assert("id"@.len() == 2 && "name"@.len() == 4);
        }
    }
    places
}

/// All the providers are listed whose rows are tables, each once and in their order, and no
/// others; and each is listed as it is when it is asked for alone. The places of the rows come
/// back.
pub proof fn law_listing_keeps_the_order(
    content: Option<&str>,
    r: Result<IndexMap<String, Value>, AppError>,
    doc: Entries,
    id: &str,
    one: Result<Option<Value>, AppError>,
) -> (places: Seq<int>)
    requires
        call_ensures(get_providers, (content,), r),
        call_ensures(get_provider, (content, id), one),
        is_document_of(content, doc),
    ensures
        r is Ok,
        ({
            let rows = rows_in(doc, "providers"@);
            let members = map_members(r->Ok_0);
            &&& members.len() == places.len()
            &&& forall|k: int, l: int|
                0 <= k < l < places.len() ==> #[trigger] places[k] < #[trigger] places[l]
            &&& forall|i: int|
                0 <= i < rows.len() && (#[trigger] rows[i]).1 is Table ==> exists|k: int|
                    0 <= k < places.len() && places[k] == i
            &&& forall|k: int|
                0 <= k < places.len() ==> 0 <= #[trigger] places[k] < rows.len()
                    && rows[places[k]].1 is Table && members[k].0 == rows[places[k]].0
            &&& forall|k: int|
                0 <= k < members.len() && (#[trigger] members[k]).0 == id@ ==> (one matches Ok(
                    Some(v),
                ) && members[k].1 == json_tree(v))
        }),
{
    lemma_opened(content, doc);
    lemma_shown(content, id, one, doc);
    reveal(Seq::filter);
    let rows = rows_in(doc, "providers"@);
    let keep = is_row();
    let entry = provider_entry(doc);
    let members = map_members(r->Ok_0);
    if doc.len() == 0 {
        assert(doc =~= Seq::empty());
        assert(providers_of(doc) =~= Seq::empty());
    }
    assert(members =~= rows.filter(keep).map_values(entry));
    let places = lemma_filter_positions(rows, keep);
    assert forall|k: int| 0 <= k < places.len() implies 0 <= #[trigger] places[k] < rows.len()
        && rows[places[k]].1 is Table && members[k].0 == rows[places[k]].0 by {
        assert(keep(rows[places[k]]));
        assert(members[k] == entry(rows.filter(keep)[k]));
    }
    assert forall|i: int| 0 <= i < rows.len() && (#[trigger] rows[i]).1 is Table implies exists|
        k: int,
    | 0 <= k < places.len() && places[k] == i by {
        assert(keep(rows[i]));
    }
    assert forall|k: int| 0 <= k < members.len() && (#[trigger] members[k]).0 == id@ implies (
    one matches Ok(Some(v)) && members[k].1 == json_tree(v)) by {
        assert(members[k] == entry(rows[places[k]]));
        assert(rows[places[k]].0 == id@);
        lemma_find_regular(doc, "providers"@);
        lemma_find_at(rows, places[k]);
    }
    places
}

/// A text that is no document is refused, with the reason, by whatever reads it.
pub proof fn law_readers_refuse_what_they_cannot_read(
    text: &str,
    id: &str,
    reason: Seq<char>,
    all: Result<IndexMap<String, Value>, AppError>,
    one: Result<Option<Value>, AppError>,
    current: Result<Option<String>, AppError>,
    json: Result<Value, AppError>,
)
    requires
        toml_document(text@) == Err::<Entries, Seq<char>>(reason),
        call_ensures(get_providers, (Some(text),), all),
        call_ensures(get_provider, (Some(text), id), one),
        call_ensures(get_current_provider_id, (Some(text),), current),
        call_ensures(read_kimi_config_json, (Some(text),), json),
    ensures
        ({
            let said = "Failed to parse Kimi config.toml: "@ + reason;
            &&& current matches Err(AppError::Config(s)) && s@ == said
            &&& trimmed(text@).len() > 0 ==> (all matches Err(AppError::Config(s)) && s@ == said)
            &&& trimmed(text@).len() > 0 ==> (one matches Err(AppError::Config(s)) && s@ == said)
            &&& trimmed(text@).len() > 0 ==> (json matches Err(AppError::Config(s)) && s@ == said)
        }),
{
}

/// The provider in use is the string under "provider" of the row of the default model; there
/// is none without a default model, a row for it that is a table, or a string there, and none
/// without a file.
pub proof fn law_current_is_of_the_default(
    content: Option<&str>,
    r: Result<Option<String>, AppError>,
    doc: Entries,
)
    requires
        call_ensures(get_current_provider_id, (content,), r),
        content matches Some(text) ==> toml_document(text@) == Ok::<Entries, Seq<char>>(doc),
    ensures
        content is None ==> r == Ok::<Option<String>, AppError>(None),
        content is Some ==> match find(doc, "default_model"@) {
            Some(Toml::Str(m)) => match find(rows_in(doc, "models"@), m) {
                Some(Toml::Table(t)) => match find(t, "provider"@) {
                    Some(Toml::Str(p)) => r matches Ok(Some(id)) && id@ == p,
                    _ => r == Ok::<Option<String>, AppError>(None),
                },
                _ => r == Ok::<Option<String>, AppError>(None),
            },
            _ => r == Ok::<Option<String>, AppError>(None),
        },
{
    assert(content is Some ==> rows_in(doc, "models"@) == model_rows(doc));
}

/// A value shows a TOML item as JSON: strings, integers and truth values as they are, a number
/// that is finite too and any other as null, a date as an object that marks its text, lists
/// element by element, and tables member by member.
pub open spec fn shows_item(v: Json, t: Toml) -> bool {
    match t {
        Toml::Str(s) => v == Json::Str(s),
        Toml::Integer(n) => v == Json::Integer(n),
        Toml::Bool(b) => v == Json::Bool(b),
        Toml::Float(bits) => v == if (bits / 0x10_0000_0000_0000) % 0x800 != 0x7ff {
            Json::Float(bits)
        } else {
            Json::Null
        },
        Toml::Date(s) => member_of(v, "$__toml_private_datetime"@) == Some(Json::Str(s)) && forall|
            k: Seq<char>,
        |
            (#[trigger] member_of(v, k)) is Some ==> k == "$__toml_private_datetime"@,
        Toml::Array(s) => v matches Json::Array(a) && a.len() == s.len() && forall|i: int|
            0 <= i < s.len() ==> #[trigger] a[i] == json_of(s[i]),
        Toml::Tables(s) => v matches Json::Array(a) && a.len() == s.len() && forall|i: int|
            0 <= i < s.len() ==> #[trigger] a[i] == json_of(s[i]),
        Toml::Table(s) => v matches Json::Object(m) && forall|k: Seq<char>|
            match find(s, k) {
                Some(u) => #[trigger] member_of(v, k) == Some(json_of(u)),
                None => member_of(v, k) is None,
            },
        Toml::Irregular => true,
    }
}

/// The elements of a list as JSON.
proof fn lemma_json_list(s: Seq<Toml>)
    ensures
        json_list(s).len() == s.len(),
        forall|i: int| 0 <= i < s.len() ==> #[trigger] json_list(s)[i] == json_of(s[i]),
    decreases s.len(),
{
    if s.len() > 0 {
        lemma_json_list(s.drop_last());
        assert forall|i: int| 0 <= i < s.len() implies #[trigger] json_list(s)[i] == json_of(s[i]) by {
            if i < s.len() - 1 {
                assert(json_list(s.drop_last())[i] == json_of(s.drop_last()[i]));
            }
        }
    }
}

/// Every item of a document is shown as JSON for what it is, at every level.
pub proof fn law_json_shows_items(t: Toml)
    ensures
        shows_item(json_of(t), t),
{
    match t {
        Toml::Array(s) => lemma_json_list(s),
        Toml::Tables(s) => lemma_json_list(s),
        Toml::Table(s) => {
            let v = json_of(t);
            assert forall|k: Seq<char>|
                match find(s, k) {
                    Some(u) => #[trigger] member_of(v, k) == Some(json_of(u)),
                    None => member_of(v, k) is None,
                } by {
                lemma_json_members(s, k);
            }
        },
        _ => {},
    }
}

/// The configuration as JSON is an empty object where there is nothing in the file, and else
/// shows the document, unless a table of it has the key that marks a date; strings of the root
/// are shown unless the root has that key.
pub proof fn law_config_json_shows_the_file(
    content: Option<&str>,
    r: Result<Value, AppError>,
    doc: Entries,
    key: Seq<char>,
)
    requires
        call_ensures(read_kimi_config_json, (content,), r),
        is_document_of(content, doc),
    ensures
        doc.len() == 0 && (content matches Some(text) ==> trimmed(text@).len() == 0) ==> (r matches Ok(
            v,
        ) && json_tree(v) == Json::Object(Map::empty())),
        is_unmarked(Toml::Table(doc)) ==> (r matches Ok(v) && json_tree(v) == json_of(
            Toml::Table(doc),
        ) && shows_item(json_tree(v), Toml::Table(doc))),
        r matches Ok(v) ==> !has_key(doc, "$__toml_private_datetime"@) ==> (find(doc, key) matches Some(
            Toml::Str(s),
        ) ==> member_of(json_tree(v), key) == Some(Json::Str(s))),
{
    lemma_opened(content, doc);
    law_json_shows_items(Toml::Table(doc));
    if doc.len() == 0 {
        assert(doc =~= Seq::empty());
        assert(json_members(doc) =~= Map::empty());
    }
    if let Some(Toml::Str(s)) = find(doc, key) {
        assert(string_in(doc, key) == Some(s));
    }
}

/// A document with a table that has the key that marks a date is shown as `toml` makes of the
/// text, and refused, with the reason, where that refuses it.
pub proof fn law_config_json_leaves_marked_tables_to_toml(
    text: &str,
    r: Result<Value, AppError>,
    doc: Entries,
)
    requires
        call_ensures(read_kimi_config_json, (Some(text),), r),
        trimmed(text@).len() > 0,
        toml_document(text@) == Ok::<Entries, Seq<char>>(doc),
        !is_unmarked(Toml::Table(doc)),
    ensures
        match toml_json(text@) {
            Ok(v) => r matches Ok(shown) && json_tree(shown) == v,
            Err(reason) => r matches Err(AppError::Config(s)) && s@
                == "Failed to parse Kimi config.toml: "@ + reason,
        },
{
}

} // verus!
