//! What holds of the settings across changes: what a change brings about, what it leaves as
//! it was, and what doing it twice does.

use crate::changes::{lemma_fields, lemma_sections, loses_default};
use crate::changes::{assigned, cleared, configured, mentions_key, not_served_by, prepared, removed, selected};
use crate::changes::{serves, target_model, wanted_key, wanted_kind, wanted_models, wanted_url};
use crate::changes::{with_configured_models, with_default, with_model, with_models, with_names};
use crate::changes::{with_provider, with_section, with_table};
use crate::error::Failure;
use crate::filters::{lemma_filter_keeps, lemma_filter_source, lemma_full_filter};
use crate::json::{elements_in, find_member, member_of, text_in, Json};
use crate::listing::{current_of, is_row, key_of, kind_of, lists, model_rows, models_of};
use crate::listing::{primary_model, provider_entry, provider_members, providers_of, served_by, url_of};
use crate::text::filled;
use crate::toml_doc::{distinct, find, has_key, lemma_filter_regular, lemma_find_at, lemma_find_put};
use crate::toml_doc::{lemma_find_regular, lemma_find_somewhere, lemma_find_without, lemma_put_put};
use crate::toml_doc::{lemma_put_regular, lemma_put_same, other_than, put, regular, string_in, table_in};
use crate::toml_doc::{without, Entries, Toml};
use vstd::prelude::*;

verus! {

/// The rows of a table, none where it is not there.
pub open spec fn rows_in(doc: Entries, key: Seq<char>) -> Entries {
    match table_in(doc, key) {
        Some(rows) => rows,
        None => Seq::empty(),
    }
}

// ---------------------------------------------------------------------------
// Configuring a provider
// ---------------------------------------------------------------------------

/// What is found under a key after `with_table`.
proof fn lemma_find_with_table(s: Entries, key: Seq<char>, other: Seq<char>)
    ensures
        find(with_table(s, key), other) == if other == key && !has_key(s, key) {
            Some(Toml::Table(Seq::empty()))
        } else {
            find(s, other)
        },
{
    if !has_key(s, key) {
        lemma_find_put(s, key, Toml::Table(Seq::empty()), other);
    }
}

/// What is found under a key after `with_model`: a row that can be given to `id` is, and no
/// other changes.
pub proof fn lemma_find_with_model(rows: Entries, id: Seq<char>, name: Seq<char>, other: Seq<char>)
    ensures
        find(with_model(rows, id, name), other) == if other != name {
            find(rows, other)
        } else {
            match find(rows, name) {
                None => Some(Toml::Table(assigned(Seq::empty(), id, name))),
                Some(Toml::Table(t)) => Some(Toml::Table(assigned(t, id, name))),
                Some(t) => Some(t),
            }
        },
{
    match find(rows, name) {
        None => {
            lemma_find_put(rows, name, Toml::Table(assigned(Seq::empty(), id, name)), other);
        },
        Some(Toml::Table(t)) => {
            lemma_find_put(rows, name, Toml::Table(assigned(t, id, name)), other);
        },
        Some(_) => {},
    }
}

/// The row of a model that was given to `id`.
pub open spec fn given(row: Toml, id: Seq<char>, name: Seq<char>) -> bool {
    match row {
        Toml::Table(t) => string_in(t, "provider"@) == Some(id) && string_in(t, "model"@) == Some(
            name,
        ),
        _ => false,
    }
}

/// The settings of a model name its provider and the model.
pub proof fn lemma_assigned(t: Entries, id: Seq<char>, name: Seq<char>)
    ensures
        given(Toml::Table(assigned(t, id, name)), id, name),
        forall|k: Seq<char>|
            k != "provider"@ && k != "model"@ ==> #[trigger] find(assigned(t, id, name), k)
                == find(t, k),
{
    lemma_fields();
    let half = put(t, "provider"@, Toml::Str(id));
    lemma_find_put(t, "provider"@, Toml::Str(id), "provider"@);
    lemma_find_put(half, "model"@, Toml::Str(name), "provider"@);
    lemma_find_put(half, "model"@, Toml::Str(name), "model"@);
    assert forall|k: Seq<char>| k != "provider"@ && k != "model"@ implies #[trigger] find(
        assigned(t, id, name),
        k,
    ) == find(t, k) by {
        lemma_find_put(t, "provider"@, Toml::Str(id), k);
        lemma_find_put(half, "model"@, Toml::Str(name), k);
    }
}

/// The models after names were given to `id`: a row under one of the names is given to `id`,
/// unless it is no table, and other rows stay.
pub proof fn lemma_find_with_models(
    rows: Entries,
    id: Seq<char>,
    names: Seq<Seq<char>>,
    key: Seq<char>,
)
    ensures
        !names.contains(key) ==> find(with_models(rows, id, names), key) == find(rows, key),
        names.contains(key) ==> match find(rows, key) {
            Some(Toml::Table(_)) | None => find(with_models(rows, id, names), key) is Some && given(
                find(with_models(rows, id, names), key)->0,
                id,
                key,
            ),
            Some(t) => find(with_models(rows, id, names), key) == Some(t),
        },
    decreases names.len(),
{
    if names.len() > 0 {
        let front = names.drop_last();
        let name = names.last();
        let before = with_models(rows, id, front);
        lemma_find_with_models(rows, id, front, key);
        lemma_find_with_model(before, id, name, key);
        assert(names =~= front.push(name));
        assert(names.contains(key) <==> front.contains(key) || key == name) by {
            if front.contains(key) {
                let k = choose|k: int| 0 <= k < front.len() && front[k] == key;
                assert(names[k] == key);
            }
            if key == name {
                assert(names[names.len() - 1] == key);
            }
        }
        if key == name {
            lemma_assigned(Seq::empty(), id, name);
            if let Some(Toml::Table(t)) = find(before, name) {
                lemma_assigned(t, id, name);
            }
        }
    }
}

/// The settings of a provider after a configuration was written to them.
pub proof fn lemma_configured(p: Entries, c: Json)
    ensures
        string_in(configured(p, c), "type"@) == Some(wanted_kind(c)),
        wanted_url(c) is Some ==> string_in(configured(p, c), "base_url"@) == wanted_url(c),
        wanted_url(c) is None ==> find(configured(p, c), "base_url"@) == find(p, "base_url"@),
        wanted_key(c) is Some ==> string_in(configured(p, c), "api_key"@) == wanted_key(c),
        wanted_key(c) is None && mentions_key(c) ==> !has_key(configured(p, c), "api_key"@),
        wanted_key(c) is None && !mentions_key(c) ==> find(configured(p, c), "api_key"@) == find(
            p,
            "api_key"@,
        ),
        forall|k: Seq<char>|
            k != "type"@ && k != "base_url"@ && k != "api_key"@ ==> #[trigger] find(
                configured(p, c),
                k,
            ) == find(p, k),
{
    lemma_fields();
    let kinded = put(p, "type"@, Toml::Str(wanted_kind(c)));
    let located = match wanted_url(c) {
        Some(url) => put(kinded, "base_url"@, Toml::Str(url)),
        None => kinded,
    };
    assert forall|k: Seq<char>| #[trigger]
        find(configured(p, c), k) == if k == "api_key"@ && wanted_key(c) is Some {
            Some(Toml::Str(wanted_key(c)->0))
        } else if k == "api_key"@ && mentions_key(c) {
            None
        } else if k == "base_url"@ && wanted_url(c) is Some {
            Some(Toml::Str(wanted_url(c)->0))
        } else if k == "type"@ {
            Some(Toml::Str(wanted_kind(c)))
        } else {
            find(p, k)
        } by {
        lemma_find_put(p, "type"@, Toml::Str(wanted_kind(c)), k);
        if let Some(url) = wanted_url(c) {
            lemma_find_put(kinded, "base_url"@, Toml::Str(url), k);
        }
        if let Some(key) = wanted_key(c) {
            lemma_find_put(located, "api_key"@, Toml::Str(key), k);
        } else if mentions_key(c) {
            lemma_find_without(located, "api_key"@, k);
        }
    }
    assert(find(configured(p, c), "type"@) == Some(Toml::Str(wanted_kind(c))));
    assert(find(configured(p, c), "base_url"@) == find(configured(p, c), "base_url"@));
    assert(find(configured(p, c), "api_key"@) == find(configured(p, c), "api_key"@));
}

/// The document after names were given to `id`, key by key.
proof fn lemma_find_with_configured(
    doc: Entries,
    id: Seq<char>,
    names: Seq<Seq<char>>,
    key: Seq<char>,
)
    ensures
        find(with_configured_models(doc, id, names), key) == if names.len() == 0 {
            find(doc, key)
        } else if key == "models"@ && (table_in(doc, "models"@) is Some || !has_key(doc, "models"@)) {
            Some(Toml::Table(with_models(rows_in(doc, "models"@), id, names)))
        } else if key == "default_model"@ && !has_key(doc, "default_model"@) {
            Some(Toml::Str(names[0]))
        } else {
            find(doc, key)
        },
{
    if names.len() > 0 {
        lemma_sections();
        let tabled = with_table(doc, "models"@);
        lemma_find_with_table(doc, "models"@, "models"@);
        lemma_find_with_table(doc, "models"@, "default_model"@);
        lemma_find_with_table(doc, "models"@, key);
        let filled_in = match table_in(tabled, "models"@) {
            Some(rows) => put(tabled, "models"@, Toml::Table(with_models(rows, id, names))),
            None => tabled,
        };
        if let Some(rows) = table_in(tabled, "models"@) {
            let new = Toml::Table(with_models(rows, id, names));
            lemma_find_put(tabled, "models"@, new, "default_model"@);
            lemma_find_put(tabled, "models"@, new, key);
        }
        if !has_key(filled_in, "default_model"@) {
            lemma_find_put(filled_in, "default_model"@, Toml::Str(names[0]), key);
        }
    }
}

/// The document after a provider was configured, key by key.
pub proof fn lemma_find_prepared(doc: Entries, id: Seq<char>, c: Json, tree: Entries, key: Seq<char>)
    requires
        prepared(doc, id, c) == Ok::<Entries, Failure>(tree),
    ensures
        find(tree, key) == if key == "providers"@ {
            Some(
                Toml::Table(
                    put(
                        with_table(rows_in(doc, "providers"@), id),
                        id,
                        Toml::Table(configured(rows_in(rows_in(doc, "providers"@), id), c)),
                    ),
                ),
            )
        } else if wanted_models(c).len() == 0 {
            find(doc, key)
        } else if key == "models"@ && (table_in(doc, "models"@) is Some || !has_key(doc, "models"@)) {
            Some(Toml::Table(with_models(rows_in(doc, "models"@), id, wanted_models(c))))
        } else if key == "default_model"@ && !has_key(doc, "default_model"@) {
            Some(Toml::Str(wanted_models(c)[0]))
        } else {
            find(doc, key)
        },
        has_key(doc, "providers"@) ==> table_in(doc, "providers"@) is Some,
        has_key(rows_in(doc, "providers"@), id) ==> table_in(rows_in(doc, "providers"@), id) is Some,
{
    lemma_sections();
    let tabled = with_table(doc, "providers"@);
    lemma_find_with_table(doc, "providers"@, "providers"@);
    let rows = table_in(tabled, "providers"@)->0;
    let entered = with_table(rows, id);
    lemma_find_with_table(rows, id, id);
    let p = table_in(entered, id)->0;
    let new = Toml::Table(put(entered, id, Toml::Table(configured(p, c))));
    let written = put(tabled, "providers"@, new);
    lemma_find_with_configured(written, id, wanted_models(c), key);
    assert forall|k: Seq<char>| #[trigger]
        find(written, k) == if k == "providers"@ {
            Some(new)
        } else {
            find(doc, k)
        } by {
        lemma_find_put(tabled, "providers"@, new, k);
        lemma_find_with_table(doc, "providers"@, k);
    }
    assert(find(written, "models"@) == find(doc, "models"@));
    assert(find(written, "default_model"@) == find(doc, "default_model"@));
    assert(find(written, key) == find(written, key));
}

/// A configured provider has the kind that the configuration asks for, the address and the
/// key that it gives, no key where it says that there is none, and what else it had.
pub proof fn law_prepare_writes_settings(doc: Entries, id: Seq<char>, c: Json, tree: Entries)
    requires
        prepared(doc, id, c) == Ok::<Entries, Failure>(tree),
    ensures
        table_in(rows_in(tree, "providers"@), id) == Some(
            configured(rows_in(rows_in(doc, "providers"@), id), c),
        ),
        ({
            let before = rows_in(rows_in(doc, "providers"@), id);
            let p = rows_in(rows_in(tree, "providers"@), id);
            &&& kind_of(p) == wanted_kind(c)
            &&& wanted_url(c) matches Some(url) ==> url_of(p) == url
            &&& wanted_url(c) is None ==> url_of(p) == url_of(before)
            &&& wanted_key(c) matches Some(key) ==> key_of(p) == key
            &&& wanted_key(c) is None && mentions_key(c) ==> !has_key(p, "api_key"@)
            &&& !mentions_key(c) ==> key_of(p) == key_of(before)
            &&& forall|k: Seq<char>|
                k != "type"@ && k != "base_url"@ && k != "api_key"@ ==> #[trigger] find(p, k)
                    == find(before, k)
        }),
{
    lemma_find_prepared(doc, id, c, tree, "providers"@);
    let before = rows_in(rows_in(doc, "providers"@), id);
    let entered = with_table(rows_in(doc, "providers"@), id);
    lemma_find_put(entered, id, Toml::Table(configured(before, c)), id);
    lemma_configured(before, c);
    let p = configured(before, c);
    lemma_fields();
    reveal_strlit("type");
    reveal_strlit("base_url");
    reveal_strlit("api_key");
    reveal_strlit("baseUrl");
    reveal_strlit("apiKey");
    assert("baseUrl"@.len() == 7 && "apiKey"@.len() == 6 && "base_url"@.len() == 8
        && "type"@.len() == 4 && "api_key"@.len() == 7);
    assert("baseUrl"@[0] == 'b' && "api_key"@[0] == 'a');
    assert(find(p, "baseUrl"@) == find(before, "baseUrl"@));
    assert(find(p, "apiKey"@) == find(before, "apiKey"@));
}

/// Configuring a provider leaves every other provider as it was, every model that the
/// configuration does not name, and every other key of the document.
pub proof fn law_prepare_keeps_others(doc: Entries, id: Seq<char>, c: Json, tree: Entries)
    requires
        prepared(doc, id, c) == Ok::<Entries, Failure>(tree),
    ensures
        forall|other: Seq<char>|
            other != id ==> #[trigger] find(rows_in(tree, "providers"@), other) == find(
                rows_in(doc, "providers"@),
                other,
            ),
        forall|name: Seq<char>|
            !wanted_models(c).contains(name) ==> #[trigger] find(model_rows(tree), name) == find(
                model_rows(doc),
                name,
            ),
        forall|k: Seq<char>|
            k != "providers"@ && k != "models"@ && k != "default_model"@ ==> #[trigger] find(
                tree,
                k,
            ) == find(doc, k),
{
    lemma_sections();
    lemma_find_prepared(doc, id, c, tree, "providers"@);
    lemma_find_prepared(doc, id, c, tree, "models"@);
    let rows = rows_in(doc, "providers"@);
    let new = Toml::Table(configured(rows_in(rows, id), c));
    assert forall|other: Seq<char>| other != id implies #[trigger] find(
        rows_in(tree, "providers"@),
        other,
    ) == find(rows, other) by {
        lemma_find_put(with_table(rows, id), id, new, other);
        lemma_find_with_table(rows, id, other);
    }
    assert forall|name: Seq<char>| !wanted_models(c).contains(name) implies #[trigger] find(
        model_rows(tree),
        name,
    ) == find(model_rows(doc), name) by {
        lemma_find_with_models(model_rows(doc), id, wanted_models(c), name);
    }
    assert forall|k: Seq<char>|
        k != "providers"@ && k != "models"@ && k != "default_model"@ implies #[trigger] find(tree, k)
        == find(doc, k) by {
        lemma_find_prepared(doc, id, c, tree, k);
    }
}

/// Every model that a configuration names is served by the provider from then on, under its
/// name; left out are a document whose models are no table, and a model that is no table,
/// which stay as they are.
pub proof fn law_prepare_gives_models(
    doc: Entries,
    id: Seq<char>,
    c: Json,
    tree: Entries,
    name: Seq<char>,
)
    requires
        prepared(doc, id, c) == Ok::<Entries, Failure>(tree),
        wanted_models(c).contains(name),
        has_key(doc, "models"@) ==> table_in(doc, "models"@) is Some,
        has_key(model_rows(doc), name) ==> table_in(model_rows(doc), name) is Some,
    ensures
        find(model_rows(tree), name) is Some,
        given(find(model_rows(tree), name)->0, id, name),
        serves(tree, id, name),
        lists(models_of(tree, id), name),
{
    lemma_sections();
    lemma_find_prepared(doc, id, c, tree, "models"@);
    lemma_find_with_models(model_rows(doc), id, wanted_models(c), name);
    lemma_served(tree, id, name);
}

/// A model whose row names `id` as its provider is served by `id`, and listed.
pub proof fn lemma_served(doc: Entries, id: Seq<char>, name: Seq<char>)
    requires
        find(model_rows(doc), name) is Some,
        served_by(id)((name, find(model_rows(doc), name)->0)),
    ensures
        serves(doc, id, name),
        lists(models_of(doc, id), name),
{
    let rows = model_rows(doc);
    lemma_find_somewhere(rows, name);
    let i = choose|i: int| 0 <= i < rows.len() && rows[i] == (name, find(rows, name)->0);
    assert(rows[i].0 == name && served_by(id)(rows[i]));
    let k = lemma_filter_keeps(rows, served_by(id), i);
    assert(models_of(doc, id)[k].0 == name);
}

/// Configuring a provider keeps the default model; where there is none, the first model of
/// the configuration becomes it.
pub proof fn law_prepare_keeps_default(doc: Entries, id: Seq<char>, c: Json, tree: Entries)
    requires
        prepared(doc, id, c) == Ok::<Entries, Failure>(tree),
    ensures
        has_key(doc, "default_model"@) ==> find(tree, "default_model"@) == find(
            doc,
            "default_model"@,
        ),
        !has_key(doc, "default_model"@) ==> string_in(tree, "default_model"@) == if wanted_models(
            c,
        ).len() > 0 {
            Some(wanted_models(c)[0])
        } else {
            None
        },
{
    lemma_sections();
    lemma_find_prepared(doc, id, c, tree, "default_model"@);
}

/// Giving a model to the provider that it was given to changes nothing.
proof fn lemma_with_model_again(rows: Entries, id: Seq<char>, name: Seq<char>)
    requires
        regular(Toml::Table(rows)),
        find(rows, name) is Some,
        find(rows, name)->0 is Table ==> given(find(rows, name)->0, id, name),
    ensures
        with_model(rows, id, name) == rows,
{
    if let Some(Toml::Table(t)) = find(rows, name) {
        lemma_find_regular(rows, name);
        assert(find(t, "provider"@) == Some(Toml::Str(id)));
        lemma_put_same(t, "provider"@);
        assert(find(t, "model"@) == Some(Toml::Str(name)));
        lemma_put_same(t, "model"@);
        lemma_put_same(rows, name);
    }
}

/// Giving models to the provider that they were given to changes nothing.
proof fn lemma_with_models_again(rows: Entries, id: Seq<char>, names: Seq<Seq<char>>)
    requires
        regular(Toml::Table(rows)),
        forall|i: int|
            0 <= i < names.len() ==> {
                &&& find(rows, #[trigger] names[i]) is Some
                &&& find(rows, names[i])->0 is Table ==> given(
                    find(rows, names[i])->0,
                    id,
                    names[i],
                )
            },
    ensures
        with_models(rows, id, names) == rows,
    decreases names.len(),
{
    if names.len() > 0 {
        let front = names.drop_last();
        assert forall|i: int| 0 <= i < front.len() implies {
            &&& find(rows, #[trigger] front[i]) is Some
            &&& find(rows, front[i])->0 is Table ==> given(find(rows, front[i])->0, id, front[i])
        } by {
            assert(names[i] == front[i]);
        }
        lemma_with_models_again(rows, id, front);
        assert(names[names.len() - 1] == names.last());
        lemma_with_model_again(rows, id, names.last());
    }
}

/// Giving models to a provider keeps a table regular.
proof fn lemma_with_models_regular(rows: Entries, id: Seq<char>, names: Seq<Seq<char>>)
    requires
        regular(Toml::Table(rows)),
    ensures
        regular(Toml::Table(with_models(rows, id, names))),
    decreases names.len(),
{
    if names.len() > 0 {
        let before = with_models(rows, id, names.drop_last());
        let name = names.last();
        lemma_with_models_regular(rows, id, names.drop_last());
        let row: Entries = match find(before, name) {
            Some(Toml::Table(t)) => t,
            _ => Seq::empty(),
        };
        if find(before, name) is Some {
            lemma_find_regular(before, name);
        }
        lemma_put_regular(row, "provider"@, Toml::Str(id));
        lemma_put_regular(put(row, "provider"@, Toml::Str(id)), "model"@, Toml::Str(name));
        lemma_put_regular(before, name, Toml::Table(assigned(row, id, name)));
    }
}

/// A configured provider keeps a document regular.
proof fn lemma_prepared_regular(doc: Entries, id: Seq<char>, c: Json, tree: Entries)
    requires
        regular(Toml::Table(doc)),
        prepared(doc, id, c) == Ok::<Entries, Failure>(tree),
    ensures
        regular(Toml::Table(tree)),
        regular(Toml::Table(configured(rows_in(rows_in(doc, "providers"@), id), c))),
{
    let none = Toml::Table(Seq::empty());
    let tabled = with_table(doc, "providers"@);
    lemma_find_with_table(doc, "providers"@, "providers"@);
    lemma_put_regular(doc, "providers"@, none);
    let rows = table_in(tabled, "providers"@)->0;
    lemma_find_regular(tabled, "providers"@);
    let entered = with_table(rows, id);
    lemma_find_with_table(rows, id, id);
    lemma_put_regular(rows, id, none);
    let p = table_in(entered, id)->0;
    lemma_find_regular(entered, id);
    lemma_put_regular(p, "type"@, Toml::Str(wanted_kind(c)));
    let kinded = put(p, "type"@, Toml::Str(wanted_kind(c)));
    let located = match wanted_url(c) {
        Some(url) => put(kinded, "base_url"@, Toml::Str(url)),
        None => kinded,
    };
    if let Some(url) = wanted_url(c) {
        lemma_put_regular(kinded, "base_url"@, Toml::Str(url));
    }
    if let Some(key) = wanted_key(c) {
        lemma_put_regular(located, "api_key"@, Toml::Str(key));
    }
    lemma_filter_regular(located, other_than("api_key"@));
    assert(regular(Toml::Table(configured(p, c))));
    lemma_put_regular(entered, id, Toml::Table(configured(p, c)));
    let new = put(entered, id, Toml::Table(configured(p, c)));
    lemma_put_regular(tabled, "providers"@, Toml::Table(new));
    let written = put(tabled, "providers"@, Toml::Table(new));
    let names = wanted_models(c);
    if names.len() > 0 {
        lemma_put_regular(written, "models"@, none);
        let again = with_table(written, "models"@);
        let filled_in = match table_in(again, "models"@) {
            Some(models) => put(again, "models"@, Toml::Table(with_models(models, id, names))),
            None => again,
        };
        if let Some(models) = table_in(again, "models"@) {
            lemma_find_regular(again, "models"@);
            lemma_with_models_regular(models, id, names);
            lemma_put_regular(again, "models"@, Toml::Table(with_models(models, id, names)));
        }
        lemma_put_regular(filled_in, "default_model"@, Toml::Str(names[0]));
    }
}

/// A document in which the provider `id` is configured in this way.
pub open spec fn is_configured(doc: Entries, id: Seq<char>, c: Json) -> bool {
    let p = rows_in(rows_in(doc, "providers"@), id);
    &&& table_in(rows_in(doc, "providers"@), id) is Some
    &&& string_in(p, "type"@) == Some(wanted_kind(c))
    &&& wanted_url(c) is Some ==> string_in(p, "base_url"@) == wanted_url(c)
    &&& wanted_key(c) is Some ==> string_in(p, "api_key"@) == wanted_key(c)
    &&& wanted_key(c) is None && mentions_key(c) ==> !has_key(p, "api_key"@)
    &&& wanted_models(c).len() > 0 ==> has_key(doc, "models"@) && has_key(doc, "default_model"@)
    &&& table_in(doc, "models"@) matches Some(rows) ==> forall|i: int|
        0 <= i < wanted_models(c).len() ==> {
            &&& has_key(rows, #[trigger] wanted_models(c)[i])
            &&& find(rows, wanted_models(c)[i])->0 is Table ==> given(
                find(rows, wanted_models(c)[i])->0,
                id,
                wanted_models(c)[i],
            )
        }
}

/// A provider that was configured is configured.
pub proof fn lemma_prepared_is_configured(doc: Entries, id: Seq<char>, c: Json, tree: Entries)
    requires
        prepared(doc, id, c) == Ok::<Entries, Failure>(tree),
    ensures
        is_configured(tree, id, c),
        table_in(tree, "models"@) is Some && wanted_models(c).len() > 0 ==> table_in(
            tree,
            "models"@,
        )->0.len() > 0,
{
    lemma_sections();
    let names = wanted_models(c);
    law_prepare_writes_settings(doc, id, c, tree);
    lemma_configured(rows_in(rows_in(doc, "providers"@), id), c);
    lemma_find_prepared(doc, id, c, tree, "models"@);
    lemma_find_prepared(doc, id, c, tree, "default_model"@);
    if names.len() > 0 {
        if let Some(rows) = table_in(tree, "models"@) {
            assert forall|i: int| 0 <= i < names.len() implies {
                &&& has_key(rows, #[trigger] names[i])
                &&& find(rows, names[i])->0 is Table ==> given(
                    find(rows, names[i])->0,
                    id,
                    names[i],
                )
            } by {
                lemma_find_with_models(rows_in(doc, "models"@), id, names, names[i]);
                assert(names.contains(names[i]));
            }
            assert(has_key(rows, names[0]));
        }
    }
}

/// Configuring a provider in the way in which it is configured changes nothing.
pub proof fn law_configured_stays(doc: Entries, id: Seq<char>, c: Json)
    requires
        regular(Toml::Table(doc)),
        is_configured(doc, id, c),
    ensures
        prepared(doc, id, c) == Ok::<Entries, Failure>(doc),
{
    let rows = rows_in(doc, "providers"@);
    let p = rows_in(rows, id);
    lemma_find_regular(doc, "providers"@);
    lemma_find_regular(rows, id);
    assert(find(p, "type"@) == Some(Toml::Str(wanted_kind(c))));
    lemma_put_same(p, "type"@);
    if let Some(url) = wanted_url(c) {
        assert(find(p, "base_url"@) == Some(Toml::Str(url)));
        lemma_put_same(p, "base_url"@);
    }
    if let Some(key) = wanted_key(c) {
        assert(find(p, "api_key"@) == Some(Toml::Str(key)));
        lemma_put_same(p, "api_key"@);
    } else if mentions_key(c) {
        lemma_find_somewhere(p, "api_key"@);
        lemma_full_filter(p, other_than("api_key"@));
    }
    assert(configured(p, c) == p);
    lemma_put_same(rows, id);
    lemma_put_same(doc, "providers"@);
    if wanted_models(c).len() > 0 {
        if let Some(models) = table_in(doc, "models"@) {
            lemma_find_regular(doc, "models"@);
            lemma_with_models_again(models, id, wanted_models(c));
            lemma_put_same(doc, "models"@);
        }
    }
}

/// Configuring a provider twice in the same way is configuring it once.
pub proof fn law_prepare_twice_is_once(doc: Entries, id: Seq<char>, c: Json, tree: Entries)
    requires
        regular(Toml::Table(doc)),
        prepared(doc, id, c) == Ok::<Entries, Failure>(tree),
    ensures
        prepared(tree, id, c) == Ok::<Entries, Failure>(tree),
{
    lemma_prepared_regular(doc, id, c, tree);
    lemma_prepared_is_configured(doc, id, c, tree);
    law_configured_stays(tree, id, c);
}

/// The models that a configuration gives are each given once, none of them is empty, and
/// the main one comes first.
pub proof fn law_wanted_models_are_distinct(c: Json)
    ensures
        wanted_models(c).no_duplicates(),
        forall|i: int| 0 <= i < wanted_models(c).len() ==> (#[trigger] wanted_models(c)[i]).len() > 0,
        filled(text_in(member_of(c, "model"@))) matches Some(m) ==> wanted_models(c).len() > 0
            && wanted_models(c)[0] == m,
{
    let main = match filled(text_in(member_of(c, "model"@))) {
        Some(m) => seq![m],
        None => Seq::empty(),
    };
    if let Some(items) = elements_in(member_of(c, "models"@)) {
        lemma_with_names(main, items);
    }
}

/// Adding names keeps those that are there, in their places, and adds none twice.
proof fn lemma_with_names(names: Seq<Seq<char>>, items: Seq<Json>)
    requires
        names.no_duplicates(),
        forall|i: int| 0 <= i < names.len() ==> (#[trigger] names[i]).len() > 0,
    ensures
        with_names(names, items).no_duplicates(),
        with_names(names, items).len() >= names.len(),
        forall|i: int| 0 <= i < names.len() ==> #[trigger] with_names(names, items)[i] == names[i],
        forall|i: int|
            0 <= i < with_names(names, items).len() ==> (#[trigger] with_names(names, items)[i]).len()
                > 0,
    decreases items.len(),
{
    if items.len() > 0 {
        lemma_with_names(names, items.drop_last());
    }
}

// ---------------------------------------------------------------------------
// Removing a provider
// ---------------------------------------------------------------------------

/// What is found under a key among the entries that a filter keeps.
proof fn lemma_find_filtered(s: Entries, keep: spec_fn((Seq<char>, Toml)) -> bool, key: Seq<char>)
    requires
        distinct(s),
    ensures
        find(s.filter(keep), key) == match find(s, key) {
            Some(v) => if keep((key, v)) {
                Some(v)
            } else {
                None
            },
            None => None,
        },
    decreases s.len(),
{
    reveal(Seq::filter);
    if s.len() > 0 {
        let front = s.drop_last();
        let last = s.last();
        lemma_find_filtered(front, keep, key);
        if keep(last) {
            assert(s.filter(keep) == front.filter(keep).push(last));
            assert(s.filter(keep).drop_last() =~= front.filter(keep));
        } else if last.0 == key {
            lemma_find_somewhere(front, key);
            if has_key(front, key) {
                let i = choose|i: int|
                    0 <= i < front.len() && front[i] == (key, find(front, key)->0);
                assert(s[i].0 != s[s.len() - 1].0);
            }
        }
    }
}

/// The document without a provider and its models, key by key.
pub proof fn lemma_find_cleared(doc: Entries, id: Seq<char>, key: Seq<char>)
    ensures
        find(cleared(doc, id), key) == if key == "providers"@ && table_in(doc, key) is Some {
            Some(Toml::Table(without(rows_in(doc, key), id)))
        } else if key == "models"@ && table_in(doc, key) is Some {
            Some(Toml::Table(rows_in(doc, key).filter(not_served_by(id))))
        } else {
            find(doc, key)
        },
{
    lemma_sections();
    let closed = match table_in(doc, "providers"@) {
        Some(rows) => with_section(doc, "providers"@, without(rows, id)),
        None => doc,
    };
    if let Some(rows) = table_in(doc, "providers"@) {
        lemma_find_put(doc, "providers"@, Toml::Table(without(rows, id)), key);
        lemma_find_put(doc, "providers"@, Toml::Table(without(rows, id)), "models"@);
    }
    if let Some(rows) = table_in(closed, "models"@) {
        lemma_find_put(closed, "models"@, Toml::Table(rows.filter(not_served_by(id))), key);
    }
}

/// The document after a provider was removed, key by key, but for the default model.
pub proof fn lemma_find_removed(doc: Entries, id: Seq<char>, key: Seq<char>)
    requires
        key != "default_model"@,
    ensures
        find(removed(doc, id), key) == find(cleared(doc, id), key),
{
    let left = cleared(doc, id);
    if model_rows(left).len() > 0 {
        lemma_find_put(left, "default_model"@, Toml::Str(model_rows(left)[0].0), key);
    }
    lemma_find_without(left, "default_model"@, key);
}

/// The models that a provider serves, seen from what is found under their names.
pub proof fn lemma_serves(doc: Entries, id: Seq<char>, name: Seq<char>)
    requires
        distinct(model_rows(doc)),
    ensures
        serves(doc, id, name) <==> has_key(model_rows(doc), name) && served_by(id)(
            (name, find(model_rows(doc), name)->0),
        ),
{
    let rows = model_rows(doc);
    if serves(doc, id, name) {
        let i = choose|i: int|
            0 <= i < rows.len() && (#[trigger] rows[i]).0 == name && served_by(id)(rows[i]);
        lemma_find_at(rows, i);
        assert(rows[i] == (name, find(rows, name)->0));
    }
    if has_key(rows, name) && served_by(id)((name, find(rows, name)->0)) {
        lemma_served(doc, id, name);
    }
}

/// The models of a regular document are regular.
pub proof fn lemma_models_regular(doc: Entries)
    requires
        regular(Toml::Table(doc)),
    ensures
        regular(Toml::Table(model_rows(doc))),
{
    if table_in(doc, "models"@) is Some {
        lemma_find_regular(doc, "models"@);
    }
}

/// A provider that was removed is gone, and no model is left that it serves.
pub proof fn law_removed_is_gone(doc: Entries, id: Seq<char>)
    requires
        regular(Toml::Table(doc)),
    ensures
        !has_key(rows_in(removed(doc, id), "providers"@), id),
        models_of(removed(doc, id), id).len() == 0,
        forall|name: Seq<char>| !#[trigger] serves(removed(doc, id), id, name),
        forall|name: Seq<char>| #[trigger]
            serves(doc, id, name) ==> !has_key(model_rows(removed(doc, id)), name),
{
    lemma_sections();
    lemma_models_regular(doc);
    let after = removed(doc, id);
    lemma_find_removed(doc, id, "providers"@);
    lemma_find_removed(doc, id, "models"@);
    lemma_find_cleared(doc, id, "providers"@);
    lemma_find_cleared(doc, id, "models"@);
    lemma_find_without(rows_in(doc, "providers"@), id, id);
    let rows = model_rows(doc);
    let kept = rows.filter(not_served_by(id));
    reveal(Seq::filter);
    assert(model_rows(after) =~= kept);
    lemma_filter_source(rows, not_served_by(id));
    let again = kept.filter(served_by(id));
    lemma_filter_source(kept, served_by(id));
    assert(again.len() == 0) by {
        if again.len() > 0 {
            assert(served_by(id)(again[0]));
            let j = choose|j: int| 0 <= j < kept.len() && kept[j] == again[0];
            assert(not_served_by(id)(kept[j]));
        }
    }
    assert forall|name: Seq<char>| !#[trigger] serves(after, id, name) by {
        if serves(after, id, name) {
            let i = choose|i: int|
                0 <= i < kept.len() && (#[trigger] kept[i]).0 == name && served_by(id)(kept[i]);
            assert(not_served_by(id)(kept[i]));
        }
    }
    assert forall|name: Seq<char>| #[trigger] serves(doc, id, name) implies !has_key(
        model_rows(after),
        name,
    ) by {
        lemma_serves(doc, id, name);
        lemma_find_filtered(rows, not_served_by(id), name);
    }
}

/// Removing a provider leaves every other provider as it was, every model that it does not
/// serve, and every other key of the document.
pub proof fn law_remove_keeps_others(doc: Entries, id: Seq<char>)
    requires
        regular(Toml::Table(doc)),
    ensures
        forall|other: Seq<char>|
            other != id ==> #[trigger] find(rows_in(removed(doc, id), "providers"@), other) == find(
                rows_in(doc, "providers"@),
                other,
            ),
        forall|name: Seq<char>|
            !serves(doc, id, name) ==> #[trigger] find(model_rows(removed(doc, id)), name) == find(
                model_rows(doc),
                name,
            ),
        forall|k: Seq<char>|
            k != "providers"@ && k != "models"@ && k != "default_model"@ ==> #[trigger] find(
                removed(doc, id),
                k,
            ) == find(doc, k),
{
    lemma_sections();
    lemma_models_regular(doc);
    let after = removed(doc, id);
    lemma_find_removed(doc, id, "providers"@);
    lemma_find_removed(doc, id, "models"@);
    lemma_find_cleared(doc, id, "providers"@);
    lemma_find_cleared(doc, id, "models"@);
    let rows = model_rows(doc);
    reveal(Seq::filter);
    assert(model_rows(after) =~= rows.filter(not_served_by(id)));
    assert forall|other: Seq<char>| other != id implies #[trigger] find(
        rows_in(after, "providers"@),
        other,
    ) == find(rows_in(doc, "providers"@), other) by {
        lemma_find_without(rows_in(doc, "providers"@), id, other);
    }
    assert forall|name: Seq<char>| !serves(doc, id, name) implies #[trigger] find(
        model_rows(after),
        name,
    ) == find(rows, name) by {
        lemma_serves(doc, id, name);
        lemma_find_filtered(rows, not_served_by(id), name);
    }
    assert forall|k: Seq<char>|
        k != "providers"@ && k != "models"@ && k != "default_model"@ implies #[trigger] find(
        after,
        k,
    ) == find(doc, k) by {
        lemma_find_removed(doc, id, k);
        lemma_find_cleared(doc, id, k);
    }
}

/// Where the default model was served by the provider that was removed, the first model that
/// is left is the default one, and there is none where none is left. Else it stays.
pub proof fn law_remove_moves_default(doc: Entries, id: Seq<char>)
    ensures
        match string_in(doc, "default_model"@) {
            Some(m) if serves(doc, id, m) => string_in(removed(doc, id), "default_model"@)
                == if model_rows(removed(doc, id)).len() > 0 {
                Some(model_rows(removed(doc, id))[0].0)
            } else {
                None
            },
            _ => find(removed(doc, id), "default_model"@) == find(doc, "default_model"@),
        },
{
    lemma_sections();
    let left = cleared(doc, id);
    lemma_find_cleared(doc, id, "default_model"@);
    lemma_find_removed(doc, id, "models"@);
    assert(model_rows(removed(doc, id)) == model_rows(left));
    if model_rows(left).len() > 0 {
        lemma_find_put(
            left,
            "default_model"@,
            Toml::Str(model_rows(left)[0].0),
            "default_model"@,
        );
    }
    lemma_find_without(left, "default_model"@, "default_model"@);
}

/// A provider that was removed is not in use; and one that is in use stays so when another is
/// removed.
pub proof fn law_removed_is_not_in_use(doc: Entries, id: Seq<char>)
    requires
        regular(Toml::Table(doc)),
    ensures
        current_of(removed(doc, id)) != Some(id),
        current_of(doc) != Some(id) ==> current_of(removed(doc, id)) == current_of(doc),
{
    lemma_models_regular(doc);
    law_removed_is_gone(doc, id);
    law_remove_keeps_others(doc, id);
    law_remove_moves_default(doc, id);
    let after = removed(doc, id);
    if let Some(m) = string_in(after, "default_model"@) {
        if current_of(after) == Some(id) {
            let t = table_in(model_rows(after), m)->0;
            assert(served_by(id)((m, Toml::Table(t))));
            lemma_served(after, id, m);
        }
    }
    if let Some(m) = string_in(doc, "default_model"@) {
        lemma_serves(doc, id, m);
        if serves(doc, id, m) {
            assert(current_of(doc) == Some(id));
        }
        assert(find(model_rows(doc), m) == find(model_rows(doc), m));
    }
}

/// Removing a provider that is not there, and serves no model, changes nothing.
pub proof fn law_absent_stays(doc: Entries, id: Seq<char>)
    requires
        regular(Toml::Table(doc)),
        !has_key(rows_in(doc, "providers"@), id),
        forall|name: Seq<char>| !#[trigger] serves(doc, id, name),
    ensures
        removed(doc, id) == doc,
        !loses_default(doc, id),
{
    if let Some(rows) = table_in(doc, "providers"@) {
        lemma_find_somewhere(rows, id);
        lemma_full_filter(rows, other_than(id));
        lemma_put_same(doc, "providers"@);
    }
    if let Some(rows) = table_in(doc, "models"@) {
        assert forall|i: int| 0 <= i < rows.len() implies not_served_by(id)(#[trigger] rows[i]) by {
            if served_by(id)(rows[i]) {
                assert(model_rows(doc)[i] == rows[i]);
                assert(serves(doc, id, rows[i].0));
            }
        }
        lemma_full_filter(rows, not_served_by(id));
        lemma_put_same(doc, "models"@);
    }
    assert(cleared(doc, id) == doc);
}

/// Removing a provider twice is removing it once.
pub proof fn law_remove_twice_is_once(doc: Entries, id: Seq<char>)
    requires
        regular(Toml::Table(doc)),
    ensures
        removed(removed(doc, id), id) == removed(doc, id),
{
    law_removed_is_gone(doc, id);
    lemma_removed_regular(doc, id);
    law_absent_stays(removed(doc, id), id);
}

/// Removing a provider keeps a document regular.
proof fn lemma_removed_regular(doc: Entries, id: Seq<char>)
    requires
        regular(Toml::Table(doc)),
    ensures
        regular(Toml::Table(removed(doc, id))),
{
    let closed = match table_in(doc, "providers"@) {
        Some(rows) => with_section(doc, "providers"@, without(rows, id)),
        None => doc,
    };
    if let Some(rows) = table_in(doc, "providers"@) {
        lemma_find_regular(doc, "providers"@);
        lemma_filter_regular(rows, other_than(id));
        lemma_put_regular(doc, "providers"@, Toml::Table(without(rows, id)));
    }
    let left = cleared(doc, id);
    if let Some(rows) = table_in(closed, "models"@) {
        lemma_find_regular(closed, "models"@);
        lemma_filter_regular(rows, not_served_by(id));
        lemma_put_regular(closed, "models"@, Toml::Table(rows.filter(not_served_by(id))));
    }
    if model_rows(left).len() > 0 {
        lemma_put_regular(left, "default_model"@, Toml::Str(model_rows(left)[0].0));
    }
    lemma_filter_regular(left, other_than("default_model"@));
}

/// Removing a provider that was just configured leaves the other providers as they were
/// before, and not that one.
pub proof fn law_remove_undoes_prepare(doc: Entries, id: Seq<char>, c: Json, tree: Entries)
    requires
        regular(Toml::Table(doc)),
        prepared(doc, id, c) == Ok::<Entries, Failure>(tree),
    ensures
        forall|other: Seq<char>|
            #[trigger] find(rows_in(removed(tree, id), "providers"@), other) == if other == id {
                None
            } else {
                find(rows_in(doc, "providers"@), other)
            },
{
    lemma_prepared_regular(doc, id, c, tree);
    law_removed_is_gone(tree, id);
    law_remove_keeps_others(tree, id);
    law_prepare_keeps_others(doc, id, c, tree);
    assert forall|other: Seq<char>|
        #[trigger] find(rows_in(removed(tree, id), "providers"@), other) == if other == id {
            None
        } else {
            find(rows_in(doc, "providers"@), other)
        } by {
        assert(other != id ==> find(rows_in(tree, "providers"@), other) == find(
            rows_in(doc, "providers"@),
            other,
        ));
    }
}

// ---------------------------------------------------------------------------
// Choosing the provider in use
// ---------------------------------------------------------------------------

/// What is found under a name after a model was made one that `id` serves.
pub proof fn lemma_find_with_provider(rows: Entries, id: Seq<char>, name: Seq<char>, other: Seq<char>)
    ensures
        find(with_provider(rows, id, name), other) == if other != name {
            find(rows, other)
        } else {
            match find(rows, name) {
                None => Some(Toml::Table(assigned(Seq::empty(), id, name))),
                Some(Toml::Table(t)) => Some(Toml::Table(put(t, "provider"@, Toml::Str(id)))),
                Some(t) => Some(t),
            }
        },
{
    match find(rows, name) {
        None => {
            lemma_find_put(rows, name, Toml::Table(assigned(Seq::empty(), id, name)), other);
        },
        Some(Toml::Table(t)) => {
            lemma_find_put(rows, name, Toml::Table(put(t, "provider"@, Toml::Str(id))), other);
        },
        Some(_) => {},
    }
}

/// The document after a provider was put to use, key by key.
pub proof fn lemma_find_selected(doc: Entries, id: Seq<char>, c: Json, key: Seq<char>)
    ensures
        find(selected(doc, id, c), key) == if key == "default_model"@ {
            Some(Toml::Str(target_model(doc, id, c)))
        } else if key == "models"@ && (table_in(doc, "models"@) is Some || !has_key(doc, "models"@)) {
            Some(
                Toml::Table(with_provider(model_rows(doc), id, target_model(doc, id, c))),
            )
        } else {
            find(doc, key)
        },
{
    lemma_sections();
    let target = target_model(doc, id, c);
    let tabled = with_table(doc, "models"@);
    lemma_find_with_table(doc, "models"@, "models"@);
    lemma_find_with_table(doc, "models"@, key);
    let known = match table_in(tabled, "models"@) {
        Some(rows) => with_section(tabled, "models"@, with_provider(rows, id, target)),
        None => tabled,
    };
    if let Some(rows) = table_in(tabled, "models"@) {
        lemma_find_put(tabled, "models"@, Toml::Table(with_provider(rows, id, target)), key);
    }
    lemma_find_put(known, "default_model"@, Toml::Str(target), key);
}

/// A provider that was put to use is the one in use. Left out are a document whose models are
/// no table, and one in which something else than a table stands for the model to be used:
/// these stay as they are.
pub proof fn law_selected_is_in_use(doc: Entries, id: Seq<char>, c: Json)
    requires
        has_key(doc, "models"@) ==> table_in(doc, "models"@) is Some,
        has_key(model_rows(doc), target_model(doc, id, c)) ==> table_in(
            model_rows(doc),
            target_model(doc, id, c),
        ) is Some,
    ensures
        current_of(selected(doc, id, c)) == Some(id),
{
    let target = target_model(doc, id, c);
    lemma_find_selected(doc, id, c, "default_model"@);
    lemma_find_selected(doc, id, c, "models"@);
    lemma_sections();
    lemma_find_with_provider(model_rows(doc), id, target, target);
    lemma_assigned(Seq::empty(), id, target);
    if let Some(t) = table_in(model_rows(doc), target) {
        lemma_find_put(t, "provider"@, Toml::Str(id), "provider"@);
    }
}

/// Putting a provider to use sets the default model, and leaves every provider, every other
/// model and every other key of the document as it was. Of the model itself, only the provider
/// changes, and nothing where the provider served it.
pub proof fn law_select_keeps_others(doc: Entries, id: Seq<char>, c: Json)
    ensures
        string_in(selected(doc, id, c), "default_model"@) == Some(target_model(doc, id, c)),
        forall|name: Seq<char>|
            name != target_model(doc, id, c) ==> #[trigger] find(
                model_rows(selected(doc, id, c)),
                name,
            ) == find(model_rows(doc), name),
        table_in(model_rows(doc), target_model(doc, id, c)) matches Some(t) ==> forall|k: Seq<char>|
            k != "provider"@ ==> #[trigger] find(
                rows_in(model_rows(selected(doc, id, c)), target_model(doc, id, c)),
                k,
            ) == find(t, k),
        regular(Toml::Table(doc)) && serves(doc, id, target_model(doc, id, c)) ==> find(
            selected(doc, id, c),
            "models"@,
        ) == find(doc, "models"@),
        forall|k: Seq<char>|
            k != "models"@ && k != "default_model"@ ==> #[trigger] find(selected(doc, id, c), k)
                == find(doc, k),
{
    lemma_sections();
    let after = selected(doc, id, c);
    let target = target_model(doc, id, c);
    let rows = model_rows(doc);
    lemma_find_selected(doc, id, c, "default_model"@);
    lemma_find_selected(doc, id, c, "models"@);
    assert forall|name: Seq<char>| name != target implies #[trigger] find(model_rows(after), name)
        == find(rows, name) by {
        lemma_find_with_provider(rows, id, target, name);
    }
    if let Some(t) = table_in(rows, target) {
        lemma_find_with_provider(rows, id, target, target);
        let row = put(t, "provider"@, Toml::Str(id));
        assert(rows_in(model_rows(after), target) == row);
        assert forall|k: Seq<char>| k != "provider"@ implies #[trigger] find(
            rows_in(model_rows(after), target),
            k,
        ) == find(t, k) by {
            lemma_find_put(t, "provider"@, Toml::Str(id), k);
        }
    }
    if regular(Toml::Table(doc)) && serves(doc, id, target) {
        lemma_models_regular(doc);
        lemma_serves(doc, id, target);
        let t = table_in(rows, target)->0;
        lemma_find_regular(rows, target);
        assert(find(t, "provider"@) == Some(Toml::Str(id)));
        lemma_put_same(t, "provider"@);
        lemma_put_same(rows, target);
    }
    assert forall|k: Seq<char>| k != "models"@ && k != "default_model"@ implies #[trigger] find(
        after,
        k,
    ) == find(doc, k) by {
        lemma_find_selected(doc, id, c, k);
    }
}

/// A provider that was configured with a main model can be put to use: it is then the one in
/// use. Left out are a document whose models are no table, and one in which something else
/// than a table stands for the model.
pub proof fn law_prepared_can_be_selected(
    doc: Entries,
    id: Seq<char>,
    c: Json,
    tree: Entries,
    name: Seq<char>,
)
    requires
        prepared(doc, id, c) == Ok::<Entries, Failure>(tree),
        text_in(member_of(c, "model"@)) == Some(name),
        has_key(doc, "models"@) ==> table_in(doc, "models"@) is Some,
        has_key(model_rows(doc), name) ==> table_in(model_rows(doc), name) is Some,
    ensures
        current_of(selected(tree, id, c)) == Some(id),
{
    lemma_sections();
    lemma_find_prepared(doc, id, c, tree, "models"@);
    lemma_find_with_models(model_rows(doc), id, wanted_models(c), name);
    law_selected_is_in_use(tree, id, c);
}

/// The default model is the one that was set last; the provider in use is the one that serves
/// it; and the rest of the document is as it was.
pub proof fn law_default_is_set(doc: Entries, before: Seq<char>, name: Seq<char>)
    ensures
        string_in(with_default(doc, name), "default_model"@) == Some(name),
        current_of(with_default(doc, name)) == string_in(rows_in(model_rows(doc), name), "provider"@),
        forall|k: Seq<char>|
            k != "default_model"@ ==> #[trigger] find(with_default(doc, name), k) == find(doc, k),
        with_default(with_default(doc, before), name) == with_default(doc, name),
{
    lemma_sections();
    lemma_put_put(doc, "default_model"@, Toml::Str(before), Toml::Str(name));
    assert forall|k: Seq<char>| #[trigger]
        find(with_default(doc, name), k) == if k == "default_model"@ {
            Some(Toml::Str(name))
        } else {
            find(doc, k)
        } by {
        lemma_find_put(doc, "default_model"@, Toml::Str(name), k);
    }
    assert(find(with_default(doc, name), "default_model"@) == Some(Toml::Str(name)));
    assert(find(with_default(doc, name), "models"@) == find(doc, "models"@));
}

// ---------------------------------------------------------------------------
// Listing providers
// ---------------------------------------------------------------------------

/// The model that stands for a provider is one that it serves, and there is one wherever it
/// serves any; it is the default model where the provider serves that.
pub proof fn law_primary_is_served(doc: Entries, id: Seq<char>)
    ensures
        primary_model(doc, id) matches Some(m) ==> lists(models_of(doc, id), m) && serves(
            doc,
            id,
            m,
        ),
        primary_model(doc, id) is None <==> models_of(doc, id).len() == 0,
        string_in(doc, "default_model"@) matches Some(m) ==> (lists(models_of(doc, id), m)
            ==> primary_model(doc, id) == Some(m)),
{
    let models = models_of(doc, id);
    let rows = model_rows(doc);
    let kept = rows.filter(served_by(id));
    if let Some(m) = primary_model(doc, id) {
        if models.len() > 0 && models[0].0 == m {
            assert(lists(models, m));
        }
        let k = choose|k: int| 0 <= k < models.len() && (#[trigger] models[k]).0 == m;
        lemma_filter_source(rows, served_by(id));
        assert(served_by(id)(kept[k]));
        let i = choose|i: int| 0 <= i < rows.len() && rows[i] == kept[k];
        assert(rows[i].0 == m && served_by(id)(rows[i]));
    }
}

/// What is found in a list of providers made of rows.
proof fn lemma_find_listed(doc: Entries, rows: Entries, id: Seq<char>)
    requires
        distinct(rows),
    ensures
        find_member(rows.filter(is_row()).map_values(provider_entry(doc)), id) == match table_in(
            rows,
            id,
        ) {
            Some(p) => Some(Json::Object(provider_members(doc, id, p))),
            None => None,
        },
    decreases rows.len(),
{
    reveal(Seq::filter);
    let entry = provider_entry(doc);
    if rows.len() > 0 {
        let front = rows.drop_last();
        let last = rows.last();
        lemma_find_listed(doc, front, id);
        if is_row()(last) {
            let kept = front.filter(is_row());
            let all = rows.filter(is_row()).map_values(entry);
            assert(rows.filter(is_row()) == kept.push(last));
            assert(all =~= kept.map_values(entry).push(entry(last)));
            assert(all.drop_last() =~= kept.map_values(entry));
        } else if last.0 == id {
            lemma_find_somewhere(front, id);
            if has_key(front, id) {
                let i = choose|i: int| 0 <= i < front.len() && front[i] == (id, find(front, id)->0);
                assert(rows[i].0 != rows[rows.len() - 1].0);
            }
        }
    }
}

/// A provider is in the listing where the document has a table for it, and there with its
/// settings and models.
pub proof fn law_listing_is_complete(doc: Entries, id: Seq<char>)
    requires
        regular(Toml::Table(doc)),
    ensures
        find_member(providers_of(doc), id) == match table_in(rows_in(doc, "providers"@), id) {
            Some(p) => Some(Json::Object(provider_members(doc, id, p))),
            None => None,
        },
{
    if let Some(rows) = table_in(doc, "providers"@) {
        lemma_find_regular(doc, "providers"@);
        lemma_find_listed(doc, rows, id);
    }
}

} // verus!
