//! What a change makes of the settings.

use crate::error::Failure;
use crate::json::{elements_in, member_of, text_in, Json};
use crate::listing::{model_rows, parsed, served_by};
use crate::text::{filled, is_blank, text_or, writable};
use crate::toml_doc::{find, has_key, put, string_in, table_in, without, Entries, Toml};
use vstd::prelude::*;

verus! {

/// The document to change: an empty one where there is no file, or nothing in it.
pub open spec fn opened(content: Option<Seq<char>>) -> Result<Entries, Failure> {
    match content {
        Some(text) if !is_blank(text) => parsed(text),
        _ => Ok(Seq::empty()),
    }
}

/// The first of two things that is there.
pub open spec fn first_of<T>(a: Option<T>, b: Option<T>) -> Option<T> {
    if a is Some {
        a
    } else {
        b
    }
}

/// The kind of provider that a configuration asks for.
pub open spec fn wanted_kind(c: Json) -> Seq<char> {
    text_or(text_in(member_of(c, "type"@)), "openai"@)
}

/// The address that a configuration gives.
pub open spec fn wanted_url(c: Json) -> Option<Seq<char>> {
    filled(
        text_in(
            first_of(
                first_of(member_of(c, "baseUrl"@), member_of(c, "base_url"@)),
                member_of(c, "endpoint"@),
            ),
        ),
    )
}

/// The key that a configuration gives.
pub open spec fn wanted_key(c: Json) -> Option<Seq<char>> {
    filled(text_in(first_of(member_of(c, "apiKey"@), member_of(c, "api_key"@))))
}

/// Whether a configuration speaks of a key, be it to say that there is none.
pub open spec fn mentions_key(c: Json) -> bool {
    member_of(c, "api_key"@) is Some || member_of(c, "apiKey"@) is Some
}

/// The name of a model in the list of models of a configuration.
pub open spec fn model_name(item: Json) -> Option<Seq<char>> {
    filled(first_of(text_in(member_of(item, "id"@)), text_in(Some(item))))
}

/// `names` with the names of the models in `items` that are not there yet.
pub open spec fn with_names(names: Seq<Seq<char>>, items: Seq<Json>) -> Seq<Seq<char>>
    decreases items.len(),
{
    if items.len() == 0 {
        names
    } else {
        let before = with_names(names, items.drop_last());
        match model_name(items.last()) {
            Some(m) if !before.contains(m) => before.push(m),
            _ => before,
        }
    }
}

/// The models that a configuration gives: the main one first, then the others, each once.
pub open spec fn wanted_models(c: Json) -> Seq<Seq<char>> {
    let main = match filled(text_in(member_of(c, "model"@))) {
        Some(m) => seq![m],
        None => Seq::empty(),
    };
    match elements_in(member_of(c, "models"@)) {
        Some(items) => with_names(main, items),
        None => main,
    }
}

/// The entries with a table under `key`, an empty one where nothing was there.
pub open spec fn with_table(s: Entries, key: Seq<char>) -> Entries {
    if has_key(s, key) {
        s
    } else {
        put(s, key, Toml::Table(Seq::empty()))
    }
}

/// The settings of a provider after a configuration was written to them.
pub open spec fn configured(p: Entries, c: Json) -> Entries {
    let kinded = put(p, "type"@, Toml::Str(wanted_kind(c)));
    let located = match wanted_url(c) {
        Some(url) => put(kinded, "base_url"@, Toml::Str(url)),
        None => kinded,
    };
    match wanted_key(c) {
        Some(key) => put(located, "api_key"@, Toml::Str(key)),
        None => if mentions_key(c) {
            without(located, "api_key"@)
        } else {
            located
        },
    }
}

/// The settings of a model that `id` serves.
pub open spec fn assigned(t: Entries, id: Seq<char>, name: Seq<char>) -> Entries {
    put(put(t, "provider"@, Toml::Str(id)), "model"@, Toml::Str(name))
}

/// The models after `name` was given to `id`.
pub open spec fn with_model(rows: Entries, id: Seq<char>, name: Seq<char>) -> Entries {
    match find(rows, name) {
        None => put(rows, name, Toml::Table(assigned(Seq::empty(), id, name))),
        Some(Toml::Table(t)) => put(rows, name, Toml::Table(assigned(t, id, name))),
        Some(_) => rows,
    }
}

/// The models after each of `names` was given to `id`.
pub open spec fn with_models(rows: Entries, id: Seq<char>, names: Seq<Seq<char>>) -> Entries
    decreases names.len(),
{
    if names.len() == 0 {
        rows
    } else {
        with_model(with_models(rows, id, names.drop_last()), id, names.last())
    }
}

/// The document after `names` were given to `id`: the first of them is the default model,
/// unless there is one.
pub open spec fn with_configured_models(
    doc: Entries,
    id: Seq<char>,
    names: Seq<Seq<char>>,
) -> Entries {
    if names.len() == 0 {
        doc
    } else {
        let tabled = with_table(doc, "models"@);
        let filled_in = match table_in(tabled, "models"@) {
            Some(rows) => put(tabled, "models"@, Toml::Table(with_models(rows, id, names))),
            None => tabled,
        };
        if has_key(filled_in, "default_model"@) {
            filled_in
        } else {
            put(filled_in, "default_model"@, Toml::Str(names[0]))
        }
    }
}

/// The document after the provider `id` was configured.
pub open spec fn prepared(doc: Entries, id: Seq<char>, c: Json) -> Result<Entries, Failure> {
    let tabled = with_table(doc, "providers"@);
    match table_in(tabled, "providers"@) {
        Some(rows) => {
            let entered = with_table(rows, id);
            match table_in(entered, id) {
                Some(p) => Ok(
                    with_configured_models(
                        put(
                            tabled,
                            "providers"@,
                            Toml::Table(put(entered, id, Toml::Table(configured(p, c)))),
                        ),
                        id,
                        wanted_models(c),
                    ),
                ),
                None => Err(Failure::Config("Kimi provider table '"@ + id + "' is invalid"@)),
            }
        },
        None => Err(Failure::Config("Kimi config.toml [providers] is not a table"@)),
    }
}

/// Whether the row of the model `name` can be written: the models, and the row, are tables or
/// not there.
pub open spec fn takes_model(doc: Entries, name: Seq<char>) -> bool {
    &&& has_key(doc, "models"@) ==> table_in(doc, "models"@) is Some
    &&& has_key(model_rows(doc), name) ==> table_in(model_rows(doc), name) is Some
}

/// The strings that a configuration writes to the settings of a provider can be written.
pub open spec fn can_configure(c: Json) -> bool {
    &&& writable(wanted_kind(c))
    &&& wanted_url(c) matches Some(url) ==> writable(url)
    &&& wanted_key(c) matches Some(key) ==> writable(key)
}

/// The strings that giving `names` to `id` writes can be written: the names and `id` in the
/// rows that are written, and the first of the names where it becomes the default model.
pub open spec fn can_give(doc: Entries, id: Seq<char>, names: Seq<Seq<char>>) -> bool {
    &&& forall|i: int|
        0 <= i < names.len() && takes_model(doc, #[trigger] names[i]) ==> writable(id) && writable(
            names[i],
        )
    &&& names.len() > 0 && !has_key(doc, "default_model"@) ==> writable(names[0])
}

/// The strings that configuring a provider writes can be written.
pub open spec fn can_prepare(doc: Entries, id: Seq<char>, c: Json) -> bool {
    can_configure(c) && can_give(doc, id, wanted_models(c))
}

/// What is said of a string that cannot be written.
pub open spec fn unwritable() -> Failure {
    Failure::Config("Kimi config.toml cannot hold this many quotes in a row"@)
}

/// The model to make the default one: the one that a configuration names, else the first
/// that `id` serves, else `id` itself.
pub open spec fn target_model(doc: Entries, id: Seq<char>, c: Json) -> Seq<char> {
    let served = model_rows(doc).filter(served_by(id));
    match text_in(member_of(c, "model"@)) {
        Some(m) => m,
        None => if served.len() > 0 {
            served[0].0
        } else {
            id
        },
    }
}

/// A change of one table of a document, seen from the document.
pub open spec fn with_section(doc: Entries, key: Seq<char>, rows: Entries) -> Entries {
    put(doc, key, Toml::Table(rows))
}

/// The models after `name` was made one that `id` serves: it is added, or changes its
/// provider. Something else than a table under its name stays.
pub open spec fn with_provider(rows: Entries, id: Seq<char>, name: Seq<char>) -> Entries {
    match find(rows, name) {
        None => put(rows, name, Toml::Table(assigned(Seq::empty(), id, name))),
        Some(Toml::Table(t)) => put(
            rows,
            name,
            Toml::Table(put(t, "provider"@, Toml::Str(id))),
        ),
        Some(_) => rows,
    }
}

/// The document after the provider `id` was put to use: its model is the default one, and
/// `id` serves it.
pub open spec fn selected(doc: Entries, id: Seq<char>, c: Json) -> Entries {
    let target = target_model(doc, id, c);
    let tabled = with_table(doc, "models"@);
    let known = match table_in(tabled, "models"@) {
        Some(rows) => with_section(tabled, "models"@, with_provider(rows, id, target)),
        None => tabled,
    };
    put(known, "default_model"@, Toml::Str(target))
}

/// Whether `id` is written to the row of the model `name` when `id` is put to use with it.
pub open spec fn gains_model(doc: Entries, id: Seq<char>, name: Seq<char>) -> bool {
    takes_model(doc, name) && !(table_in(model_rows(doc), name) matches Some(t) && string_in(
        t,
        "provider"@,
    ) == Some(id))
}

/// The strings that putting a provider to use writes can be written.
pub open spec fn can_select(doc: Entries, id: Seq<char>, c: Json) -> bool {
    &&& writable(target_model(doc, id, c))
    &&& gains_model(doc, id, target_model(doc, id, c)) ==> writable(id)
}

/// Whether an entry of the models is not served by `id`.
pub open spec fn not_served_by(id: Seq<char>) -> spec_fn((Seq<char>, Toml)) -> bool {
    |e: (Seq<char>, Toml)| !served_by(id)(e)
}

/// The document without the provider `id` and the models that it serves.
pub open spec fn cleared(doc: Entries, id: Seq<char>) -> Entries {
    let closed = match table_in(doc, "providers"@) {
        Some(rows) => with_section(doc, "providers"@, without(rows, id)),
        None => doc,
    };
    match table_in(closed, "models"@) {
        Some(rows) => with_section(closed, "models"@, rows.filter(not_served_by(id))),
        None => closed,
    }
}

/// Whether `id` serves a model of this name.
pub open spec fn serves(doc: Entries, id: Seq<char>, name: Seq<char>) -> bool {
    exists|i: int|
        0 <= i < model_rows(doc).len() && (#[trigger] model_rows(doc)[i]).0 == name && served_by(
            id,
        )(model_rows(doc)[i])
}

/// Whether the default model goes when the provider `id` is removed.
pub open spec fn loses_default(doc: Entries, id: Seq<char>) -> bool {
    string_in(cleared(doc, id), "default_model"@) matches Some(m) && serves(doc, id, m)
}

/// The document with the first model as the default one, or without a default model where
/// there is no model.
pub open spec fn with_first_as_default(doc: Entries) -> Entries {
    if model_rows(doc).len() > 0 {
        put(doc, "default_model"@, Toml::Str(model_rows(doc)[0].0))
    } else {
        without(doc, "default_model"@)
    }
}

/// The document after the provider `id` was removed, with the models that it serves; where
/// the default model was one of them, the first that is left takes its place.
pub open spec fn removed(doc: Entries, id: Seq<char>) -> Entries {
    if loses_default(doc, id) {
        with_first_as_default(cleared(doc, id))
    } else {
        cleared(doc, id)
    }
}

/// The strings that removing a provider writes can be written.
pub open spec fn can_remove(doc: Entries, id: Seq<char>) -> bool {
    loses_default(doc, id) && model_rows(cleared(doc, id)).len() > 0 ==> writable(
        model_rows(cleared(doc, id))[0].0,
    )
}

/// The document with another default model.
pub open spec fn with_default(doc: Entries, name: Seq<char>) -> Entries {
    put(doc, "default_model"@, Toml::Str(name))
}

// ---------------------------------------------------------------------------
// Keys
// ---------------------------------------------------------------------------

/// The keys of a document that the settings use are three.
pub proof fn lemma_sections()
    ensures
        "providers"@ != "models"@,
        "providers"@ != "default_model"@,
        "models"@ != "default_model"@,
{
    reveal_strlit("providers");
    reveal_strlit("models");
    reveal_strlit("default_model");
    assert("providers"@.len() == 9);
    assert("models"@.len() == 6);
    assert("default_model"@.len() == 13);
}

/// The keys of a provider and of a model that the settings write are distinct.
pub proof fn lemma_fields()
    ensures
        "type"@ != "base_url"@,
        "type"@ != "api_key"@,
        "base_url"@ != "api_key"@,
        "provider"@ != "model"@,
{
    reveal_strlit("type");
    reveal_strlit("base_url");
    reveal_strlit("api_key");
    reveal_strlit("provider");
    reveal_strlit("model");
    assert("type"@.len() == 4);
    assert("base_url"@.len() == 8);
    assert("api_key"@.len() == 7);
    assert("provider"@.len() == 8);
    assert("model"@.len() == 5);
}

} // verus!
