//! What the changes of a document promise: that they are the changes of a file, and in which
//! order the entries come.

use crate::changes::{assigned, cleared, configured, lemma_fields, lemma_sections, loses_default};
use crate::changes::{mentions_key, model_name, not_served_by, target_model, wanted_key, wanted_kind};
use crate::changes::{wanted_models, wanted_url, with_model, with_models, with_names, with_provider};
use crate::changes::with_table;
use crate::choice_promises::lemma_names_provider;
use crate::editing::{prepare_in, prepare_provider, remove_in, remove_provider, select_in};
use crate::editing::{set_current_provider, set_default_in, set_default_model};
use crate::error::AppError;
use crate::filters::{lemma_filter_positions, lemma_full_filter};
use crate::json::{json_tree, map_members, member_of, Json};
use crate::laws::{law_prepare_writes_settings, law_wanted_models_are_distinct, lemma_configured};
use crate::laws::{lemma_find_cleared, lemma_find_prepared, lemma_find_removed, lemma_find_selected};
use crate::laws::rows_in;
use crate::listing::{current_provider_in, get_current_provider_id, get_providers, model_rows};
use crate::listing::providers_in;
use crate::promises::{element_names, lemma_element, lemma_names_added, lemma_wanted, names_model};
use crate::promises::names_provider;
use crate::round_trips::read_from;
use crate::saving::FileWrite;
use crate::text::trimmed;
use crate::toml_access::{document_tree, renders, toml_document};
use crate::toml_doc::{find, has_key, holds_same, lemma_find_put, lemma_find_somewhere};
use crate::toml_doc::{lemma_find_without, other_than, put, table_in, without, Entries, Toml};
use indexmap::IndexMap;
use serde_json::Value;
use std::path::PathBuf;
use toml_edit::DocumentMut;
use vstd::prelude::*;

verus! {

// ---------------------------------------------------------------------------
// Documents and files
// ---------------------------------------------------------------------------

/// A provider is configured in a document as it is in the file that holds the document: where
/// that is written, so is this, and it is what is written; and where this is refused, so is that,
/// for the same reason, and the document stays as it was.
pub proof fn law_prepare_in_is_prepare(
    doc: &mut DocumentMut,
    text: &str,
    id: &str,
    c: &Value,
    owned: Value,
    r: Result<(), AppError>,
    file: Result<String, AppError>,
)
    requires
        trimmed(text@).len() > 0,
        toml_document(text@) == Ok::<Entries, Seq<char>>(document_tree(*old(doc))),
        json_tree(owned) == json_tree(*c),
        call_ensures(prepare_in, (doc, id, c), r),
        call_ensures(prepare_provider, (Some(text), id, owned), file),
    ensures
        file matches Ok(written) ==> r is Ok && holds_same(
            read_from(written@),
            document_tree(*final(doc)),
        ) && renders(written@, document_tree(*final(doc))),
        r matches Err(e) ==> (file matches Err(f) && e@ == f@) && *final(doc) == *old(doc),
{
}

/// A provider is put to use in a document as it is in the file that holds the document.
pub proof fn law_select_in_is_select(
    doc: &mut DocumentMut,
    dir: &PathBuf,
    text: &str,
    id: &str,
    c: &Value,
    w: FileWrite,
)
    requires
        trimmed(text@).len() > 0,
        toml_document(text@) == Ok::<Entries, Seq<char>>(document_tree(*old(doc))),
        call_ensures(select_in, (doc, id, c), ()),
        call_ensures(set_current_provider, (dir, Some(text), id, c), Ok::<FileWrite, AppError>(w)),
    ensures
        holds_same(read_from(w.content@), document_tree(*final(doc))),
        renders(w.content@, document_tree(*final(doc))),
{
}

/// The default model is set in a document as it is in the file that holds the document.
pub proof fn law_set_default_in_is_set_default(
    doc: &mut DocumentMut,
    dir: &PathBuf,
    text: &str,
    name: &str,
    w: FileWrite,
    back: String,
)
    requires
        trimmed(text@).len() > 0,
        toml_document(text@) == Ok::<Entries, Seq<char>>(document_tree(*old(doc))),
        call_ensures(set_default_in, (doc, name), ()),
        call_ensures(
            set_default_model,
            (dir, Some(text), name),
            Ok::<(FileWrite, String), AppError>((w, back)),
        ),
    ensures
        holds_same(read_from(w.content@), document_tree(*final(doc))),
        renders(w.content@, document_tree(*final(doc))),
{
}

/// A provider is removed from a document as it is from the file that holds the document.
pub proof fn law_remove_in_is_remove(
    doc: &mut DocumentMut,
    dir: &PathBuf,
    text: &str,
    id: &str,
    w: FileWrite,
)
    requires
        toml_document(text@) == Ok::<Entries, Seq<char>>(document_tree(*old(doc))),
        call_ensures(remove_in, (doc, id), ()),
        call_ensures(
            remove_provider,
            (dir, Some(text), id),
            Ok::<Option<FileWrite>, AppError>(Some(w)),
        ),
    ensures
        holds_same(read_from(w.content@), document_tree(*final(doc))),
        renders(w.content@, document_tree(*final(doc))),
{
}

/// The providers of a document, and the one in use, are those of the file that holds it.
pub proof fn law_document_is_listed_as_its_file(
    doc: &DocumentMut,
    text: &str,
    all: IndexMap<String, Value>,
    file: Result<IndexMap<String, Value>, AppError>,
    current: Option<String>,
    in_use: Result<Option<String>, AppError>,
)
    requires
        trimmed(text@).len() > 0,
        toml_document(text@) == Ok::<Entries, Seq<char>>(document_tree(*doc)),
        call_ensures(providers_in, (doc,), all),
        call_ensures(get_providers, (Some(text),), file),
        call_ensures(current_provider_in, (doc,), current),
        call_ensures(get_current_provider_id, (Some(text),), in_use),
    ensures
        file matches Ok(m) && map_members(m) == map_members(all),
        in_use matches Ok(found) && match (found, current) {
            (Some(a), Some(b)) => a@ == b@,
            (None, None) => true,
            _ => false,
        },
{
}

// ---------------------------------------------------------------------------
// The order of entries
// ---------------------------------------------------------------------------

/// The model `name` is named at a place of a configuration: before the list of models under
/// "model", or in the element `i` of the list.
pub open spec fn is_named_at(c: Json, i: int, name: Seq<char>) -> bool {
    if i < 0 {
        member_of(c, "model"@) matches Some(Json::Str(s)) && trimmed(s) == name
    } else {
        member_of(c, "models"@) matches Some(Json::Array(a)) && i < a.len() && element_names(
            a[i],
            name,
        )
    }
}

/// A configuration names `a` before it names `b` for the first time.
pub open spec fn names_before(c: Json, a: Seq<char>, b: Seq<char>) -> bool {
    exists|i: int| -1 <= i && #[trigger] is_named_at(c, i, a) && forall|j: int|
        -1 <= j <= i ==> !#[trigger] is_named_at(c, j, b)
}

/// Of two names, the first comes from an earlier place.
proof fn lemma_names_in_order(main: Seq<Seq<char>>, items: Seq<Json>, p: int, q: int) -> (i: int)
    requires
        main.len() <= 1,
        0 <= p < q < with_names(main, items).len(),
    ensures
        ({
            let names = with_names(main, items);
            &&& -1 <= i < items.len()
            &&& i < 0 ==> main.contains(names[p])
            &&& i >= 0 ==> model_name(items[i]) == Some(names[p])
            &&& !main.contains(names[q])
            &&& forall|j: int|
                0 <= j <= i ==> model_name(#[trigger] items[j]) != Some(names[q])
        }),
    decreases items.len(),
{
    let names = with_names(main, items);
    let front = items.drop_last();
    let before = with_names(main, front);
    if q < before.len() {
        let i = lemma_names_in_order(main, front, p, q);
        assert forall|j: int| 0 <= j <= i implies model_name(#[trigger] items[j]) != Some(
            names[q],
        ) by {
            assert(front[j] == items[j]);
        }
        i
    } else {
        lemma_names_added(main, front, names[p]);
        lemma_names_added(main, front, names[q]);
        assert(before[p] == names[p]);
        assert(before.contains(names[p]));
        assert(!before.contains(names[q]));
        assert forall|j: int| 0 <= j < front.len() implies model_name(
            #[trigger] items[j],
        ) != Some(names[q]) by {
            assert(front[j] == items[j]);
        }
        if main.contains(names[p]) {
            -1
        } else {
            let i = choose|i: int|
                0 <= i < front.len() && model_name(#[trigger] front[i]) == Some(
                    names[p],
                );
            assert(items[i] == front[i]);
            i
        }
    }
}

/// The models that a configuration gives come in the order in which it names them.
proof fn lemma_wanted_in_order(c: Json, p: int, q: int)
    requires
        0 <= p < q < wanted_models(c).len(),
    ensures
        names_before(c, wanted_models(c)[p], wanted_models(c)[q]),
{
    let main: Seq<Seq<char>> = match member_of(c, "model"@) {
        Some(Json::Str(s)) if trimmed(s).len() > 0 => seq![trimmed(s)],
        _ => Seq::empty(),
    };
    let a = wanted_models(c)[p];
    let b = wanted_models(c)[q];
    law_wanted_models_are_distinct(c);
    assert(a.len() > 0 && b.len() > 0);
    let items = match member_of(c, "models"@) {
        Some(Json::Array(items)) => items,
        _ => Seq::empty(),
    };
    assert(wanted_models(c) == with_names(main, items));
    let i = lemma_names_in_order(main, items, p, q);
    assert forall|j: int| -1 <= j <= i implies !#[trigger] is_named_at(c, j, b) by {
        if j < 0 {
            if is_named_at(c, j, b) {
                assert(main =~= seq![b]);
                assert(main[0] == b);
            }
        } else {
            lemma_element(items[j], b);
        }
    }
    if i < 0 {
        assert(is_named_at(c, i, a));
    } else {
        lemma_element(items[i], a);
        assert(is_named_at(c, i, a));
    }
}

/// Putting a value under a key keeps the other keys in their places.
proof fn lemma_put_keys(s: Entries, key: Seq<char>, value: Toml)
    ensures
        put(s, key, value).len() == if has_key(s, key) {
            s.len()
        } else {
            s.len() + 1
        },
        forall|i: int| 0 <= i < s.len() ==> (#[trigger] put(s, key, value)[i]).0 == s[i].0,
        !has_key(s, key) ==> put(s, key, value)[s.len() as int].0 == key,
{
}

/// The rows that giving models adds, by the places of their names.
proof fn lemma_with_models_keys(rows: Entries, id: Seq<char>, names: Seq<Seq<char>>) -> (places: Seq<
    int,
>)
    ensures
        ({
            let after = with_models(rows, id, names);
            &&& after.len() == rows.len() + places.len()
            &&& forall|i: int| 0 <= i < rows.len() ==> (#[trigger] after[i]).0 == rows[i].0
            &&& forall|k: int|
                0 <= k < places.len() ==> 0 <= #[trigger] places[k] < names.len() && after[rows.len()
                    + k].0 == names[places[k]]
            &&& forall|k: int, l: int|
                0 <= k < l < places.len() ==> #[trigger] places[k] < #[trigger] places[l]
        }),
    decreases names.len(),
{
    if names.len() == 0 {
        Seq::empty()
    } else {
        let front = names.drop_last();
        let name = names.last();
        let before = with_models(rows, id, front);
        let places = lemma_with_models_keys(rows, id, front);
        let after = with_model(before, id, name);
        match find(before, name) {
            None => {
                let row = Toml::Table(assigned(Seq::empty(), id, name));
                lemma_put_keys(before, name, row);
                let more = places.push(names.len() - 1);
                assert forall|k: int| 0 <= k < more.len() implies 0 <= #[trigger] more[k] < names.len()
                    && after[rows.len() + k].0 == names[more[k]] by {
                    if k < places.len() {
                        assert(more[k] == places[k]);
                        assert(after[rows.len() + k].0 == before[rows.len() + k].0);
                        assert(front[places[k]] == names[places[k]]);
                    }
                }
                assert forall|i: int| 0 <= i < rows.len() implies (#[trigger] after[i]).0
                    == rows[i].0 by {
                    assert(after[i].0 == before[i].0);
                }
                more
            },
            Some(Toml::Table(t)) => {
                lemma_put_keys(before, name, Toml::Table(assigned(t, id, name)));
                assert forall|k: int| 0 <= k < places.len() implies 0 <= #[trigger] places[k]
                    < names.len() && after[rows.len() + k].0 == names[places[k]] by {
                    assert(after[rows.len() + k].0 == before[rows.len() + k].0);
                    assert(front[places[k]] == names[places[k]]);
                }
                assert forall|i: int| 0 <= i < rows.len() implies (#[trigger] after[i]).0
                    == rows[i].0 by {
                    assert(after[i].0 == before[i].0);
                }
                places
            },
            Some(_) => {
                assert forall|k: int| 0 <= k < places.len() implies 0 <= #[trigger] places[k]
                    < names.len() && after[rows.len() + k].0 == names[places[k]] by {
                    assert(front[places[k]] == names[places[k]]);
                }
                places
            },
        }
    }
}

/// The models of a document keep their order when a provider is configured, and those that are
/// added come after them, in the order in which the configuration names them.
pub proof fn law_prepare_adds_models_in_order(
    doc: &mut DocumentMut,
    id: &str,
    c: &Value,
    p: int,
    q: int,
)
    requires
        call_ensures(prepare_in, (doc, id, c), Ok::<(), AppError>(())),
    ensures
        ({
            let before = rows_in(document_tree(*old(doc)), "models"@);
            let after = rows_in(document_tree(*final(doc)), "models"@);
            &&& after.len() >= before.len()
            &&& 0 <= p < before.len() ==> after[p].0 == before[p].0
            &&& before.len() <= p < q < after.len() ==> names_before(
                json_tree(*c),
                after[p].0,
                after[q].0,
            )
        }),
{
    let tree = document_tree(*old(doc));
    let done = document_tree(*final(doc));
    let config = json_tree(*c);
    let names = wanted_models(config);
    let before = rows_in(tree, "models"@);
    let after = rows_in(done, "models"@);
    lemma_sections();
    lemma_find_prepared(tree, id@, config, done, "models"@);
    let places = lemma_with_models_keys(before, id@, names);
    if before.len() <= p < q < after.len() {
        let k = p - before.len();
        let l = q - before.len();
        assert(places[k] < places[l]);
        assert(after[before.len() + k].0 == names[places[k]]);
        assert(after[before.len() + l].0 == names[places[l]]);
        lemma_wanted_in_order(config, places[k], places[l]);
    }
}

/// The models of a document keep their order when a provider is put to use; one that is added
/// comes last.
pub proof fn law_select_adds_the_model_last(doc: &mut DocumentMut, id: &str, c: &Value, p: int)
    requires
        call_ensures(select_in, (doc, id, c), ()),
    ensures
        ({
            let before = rows_in(document_tree(*old(doc)), "models"@);
            let after = rows_in(document_tree(*final(doc)), "models"@);
            &&& before.len() <= after.len() <= before.len() + 1
            &&& 0 <= p < before.len() ==> after[p].0 == before[p].0
        }),
{
    let tree = document_tree(*old(doc));
    let config = json_tree(*c);
    let before = rows_in(tree, "models"@);
    let target = target_model(tree, id@, config);
    lemma_sections();
    lemma_find_selected(tree, id@, config, "models"@);
    assert(before == model_rows(tree));
    lemma_put_keys(
        before,
        target,
        Toml::Table(assigned(Seq::empty(), id@, target)),
    );
    if let Some(Toml::Table(t)) = find(before, target) {
        lemma_put_keys(before, target, Toml::Table(put(t, "provider"@, Toml::Str(id@))));
    }
}

/// The providers and models that are left when a provider is removed are those before it
/// without it and without the models whose rows name it, in their order. The places of the two
/// come back.
pub proof fn law_remove_keeps_the_order(doc: &mut DocumentMut, id: &str) -> (places: (
    Seq<int>,
    Seq<int>,
))
    requires
        call_ensures(remove_in, (doc, id), ()),
    ensures
        ({
            let before = rows_in(document_tree(*old(doc)), "providers"@);
            let after = rows_in(document_tree(*final(doc)), "providers"@);
            &&& after.len() == places.0.len()
            &&& forall|k: int, l: int|
                0 <= k < l < after.len() ==> #[trigger] places.0[k] < #[trigger] places.0[l]
            &&& forall|k: int|
                0 <= k < after.len() ==> 0 <= #[trigger] places.0[k] < before.len() && after[k]
                    == before[places.0[k]] && after[k].0 != id@
            &&& forall|i: int|
                0 <= i < before.len() && (#[trigger] before[i]).0 != id@ ==> exists|k: int|
                    0 <= k < after.len() && places.0[k] == i
        }),
        ({
            let before = rows_in(document_tree(*old(doc)), "models"@);
            let after = rows_in(document_tree(*final(doc)), "models"@);
            &&& after.len() == places.1.len()
            &&& forall|k: int, l: int|
                0 <= k < l < after.len() ==> #[trigger] places.1[k] < #[trigger] places.1[l]
            &&& forall|k: int|
                0 <= k < after.len() ==> 0 <= #[trigger] places.1[k] < before.len() && after[k]
                    == before[places.1[k]] && !names_provider(after[k].1, id@)
            &&& forall|i: int|
                0 <= i < before.len() && !names_provider((#[trigger] before[i]).1, id@)
                    ==> exists|k: int| 0 <= k < after.len() && places.1[k] == i
        }),
{
    let tree = document_tree(*old(doc));
    let done = document_tree(*final(doc));
    lemma_sections();
    lemma_names_provider(id@);
    lemma_find_removed(tree, id@, "providers"@);
    lemma_find_cleared(tree, id@, "providers"@);
    lemma_find_removed(tree, id@, "models"@);
    lemma_find_cleared(tree, id@, "models"@);
    let providers = rows_in(tree, "providers"@);
    let other = other_than(id@);
    let models = rows_in(tree, "models"@);
    let keep = not_served_by(id@);
    assert(rows_in(done, "providers"@) =~= providers.filter(other)) by {
        reveal(Seq::filter);
    }
    assert(rows_in(done, "models"@) =~= models.filter(keep)) by {
        reveal(Seq::filter);
    }
    let first = lemma_filter_positions(providers, other);
    let second = lemma_filter_positions(models, keep);
    assert forall|i: int| 0 <= i < providers.len() && (#[trigger] providers[i]).0 != id@ implies exists|
        k: int,
    | 0 <= k < first.len() && first[k] == i by {
        assert(other(providers[i]));
    }
    assert forall|k: int| 0 <= k < first.len() implies 0 <= #[trigger] first[k] < providers.len()
        && providers.filter(other)[k] == providers[first[k]] && providers[first[k]].0 != id@ by {
        assert(other(providers[first[k]]));
    }
    assert forall|i: int| 0 <= i < models.len() && !names_provider((#[trigger] models[i]).1, id@) implies exists|
        k: int,
    | 0 <= k < second.len() && second[k] == i by {
        assert(keep(models[i]));
    }
    assert forall|k: int| 0 <= k < second.len() implies 0 <= #[trigger] second[k] < models.len()
        && models.filter(keep)[k] == models[second[k]] && !names_provider(
        models[second[k]].1,
        id@,
    ) by {
        assert(keep(models[second[k]]));
    }
    (first, second)
}

/// The keys of `before` come first in `after`, in their order.
pub open spec fn starts_with_keys(after: Entries, before: Entries) -> bool {
    &&& after.len() >= before.len()
    &&& forall|i: int| 0 <= i < before.len() ==> (#[trigger] after[i]).0 == before[i].0
}

/// The keys of `after` are those of `before`, and then these.
pub open spec fn adds_keys(after: Entries, before: Entries, keys: Seq<Seq<char>>) -> bool {
    &&& starts_with_keys(after, before)
    &&& after.len() == before.len() + keys.len()
    &&& forall|k: int| 0 <= k < keys.len() ==> after[before.len() + k].0 == #[trigger] keys[k]
}

/// `key`, where it is new.
pub open spec fn if_new(s: Entries, key: Seq<char>) -> Seq<Seq<char>> {
    if has_key(s, key) {
        Seq::empty()
    } else {
        seq![key]
    }
}

/// Putting a value under a key adds the key where it is new.
proof fn lemma_put_adds(
    first: Entries,
    keys: Seq<Seq<char>>,
    s: Entries,
    key: Seq<char>,
    value: Toml,
)
    requires
        adds_keys(s, first, keys),
    ensures
        adds_keys(put(s, key, value), first, keys + if_new(s, key)),
{
    let t = put(s, key, value);
    let more = keys + if_new(s, key);
    lemma_put_keys(s, key, value);
    assert forall|i: int| 0 <= i < first.len() implies (#[trigger] t[i]).0 == first[i].0 by {
        assert(t[i].0 == s[i].0);
    }
    assert forall|k: int| 0 <= k < more.len() implies t[first.len() + k].0 == #[trigger] more[k] by {
        if k < keys.len() {
            assert(more[k] == keys[k]);
            assert(t[first.len() + k].0 == s[first.len() + k].0);
        }
    }
}

/// Configuring a provider keeps the keys of a document in their order; what is new among
/// "providers", "models" and "default_model" comes after them, in this order.
pub proof fn law_prepare_adds_sections_in_order(doc: &mut DocumentMut, id: &str, c: &Value)
    requires
        call_ensures(prepare_in, (doc, id, c), Ok::<(), AppError>(())),
    ensures
        ({
            let before = document_tree(*old(doc));
            let after = document_tree(*final(doc));
            let given = exists|m: Seq<char>| names_model(json_tree(*c), m);
            adds_keys(
                after,
                before,
                if_new(before, "providers"@) + (if given {
                    if_new(before, "models"@) + if_new(before, "default_model"@)
                } else {
                    Seq::empty()
                }),
            )
        }),
{
    let before = document_tree(*old(doc));
    let after = document_tree(*final(doc));
    let config = json_tree(*c);
    let names = wanted_models(config);
    let none = Toml::Table(Seq::empty());
    lemma_sections();
    assert(names.len() > 0 <==> exists|m: Seq<char>| names_model(config, m)) by {
        if names.len() > 0 {
            lemma_wanted(config, names[0]);
            assert(names_model(config, names[0]));
        }
        if exists|m: Seq<char>| names_model(config, m) {
            let m = choose|m: Seq<char>| names_model(config, m);
            lemma_wanted(config, m);
        }
    }
    let start = Seq::<Seq<char>>::empty();
    assert(adds_keys(before, before, start));
    let tabled = with_table(before, "providers"@);
    let a = if_new(before, "providers"@);
    lemma_put_adds(before, start, before, "providers"@, none);
    assert(start + a =~= a);
    lemma_find_put(before, "providers"@, none, "providers"@);
    assert(adds_keys(tabled, before, a));
    let rows = table_in(tabled, "providers"@)->0;
    let entered = with_table(rows, id@);
    let row = table_in(entered, id@)->0;
    let filled_row = Toml::Table(put(entered, id@, Toml::Table(configured(row, config))));
    let written = put(tabled, "providers"@, filled_row);
    lemma_put_adds(before, a, tabled, "providers"@, filled_row);
    assert(a + if_new(tabled, "providers"@) =~= a);
    assert(adds_keys(written, before, a));
    assert forall|key: Seq<char>| key != "providers"@ implies #[trigger] find(written, key) == find(
        before,
        key,
    ) by {
        lemma_find_put(before, "providers"@, none, key);
        lemma_find_put(tabled, "providers"@, filled_row, key);
    }
    assert(find(written, "models"@) == find(before, "models"@));
    assert(find(written, "default_model"@) == find(before, "default_model"@));
    if names.len() > 0 {
        let b = if_new(before, "models"@);
        let with_rows = with_table(written, "models"@);
        lemma_put_adds(before, a, written, "models"@, none);
        lemma_find_put(written, "models"@, none, "models"@);
        lemma_find_put(written, "models"@, none, "default_model"@);
        assert(a + if_new(written, "models"@) == a + b);
        assert(adds_keys(with_rows, before, a + b)) by {
            if has_key(written, "models"@) {
                assert(a + b =~= a);
            }
        }
        let filled_in = match table_in(with_rows, "models"@) {
            Some(models) => put(
                with_rows,
                "models"@,
                Toml::Table(with_models(models, id@, names)),
            ),
            None => with_rows,
        };
        if let Some(models) = table_in(with_rows, "models"@) {
            let more = Toml::Table(with_models(models, id@, names));
            lemma_put_adds(before, a + b, with_rows, "models"@, more);
            lemma_find_put(with_rows, "models"@, more, "default_model"@);
            assert((a + b) + if_new(with_rows, "models"@) =~= a + b);
        }
        assert(adds_keys(filled_in, before, a + b));
        lemma_put_adds(before, a + b, filled_in, "default_model"@, Toml::Str(names[0]));
        let d = if_new(before, "default_model"@);
        assert((a + b) + d =~= a + (b + d));
        if has_key(filled_in, "default_model"@) {
            assert((a + b) + d =~= a + b);
        }
    } else {
        assert(a + Seq::<Seq<char>>::empty() =~= a);
    }
}

/// A model that is added has its provider and its name, in this order, and nothing else.
pub open spec fn is_new_row(e: (Seq<char>, Toml), id: Seq<char>) -> bool {
    e.1 == Toml::Table(seq![("provider"@, Toml::Str(id)), ("model"@, Toml::Str(e.0))])
}

/// The row of a model that was not there.
proof fn lemma_new_row(id: Seq<char>, name: Seq<char>)
    ensures
        is_new_row((name, Toml::Table(assigned(Seq::empty(), id, name))), id),
{
    lemma_fields();
    let none = Seq::<(Seq<char>, Toml)>::empty();
    let half = put(none, "provider"@, Toml::Str(id));
    assert(half =~= seq![("provider"@, Toml::Str(id))]);
    assert(find(half.drop_last(), "model"@) is None);
    assert(half.last().0 == "provider"@);
    assert(!has_key(half, "model"@));
    assert(assigned(none, id, name) =~= seq![
        ("provider"@, Toml::Str(id)),
        ("model"@, Toml::Str(name)),
    ]);
}

/// The rows that giving models adds hold the provider and the name alone, where no name is
/// given twice.
proof fn lemma_with_models_rows(rows: Entries, id: Seq<char>, names: Seq<Seq<char>>, k: int)
    requires
        names.no_duplicates(),
        rows.len() <= k < with_models(rows, id, names).len(),
    ensures
        is_new_row(with_models(rows, id, names)[k], id),
    decreases names.len(),
{
    let front = names.drop_last();
    let name = names.last();
    let before = with_models(rows, id, front);
    let after = with_models(rows, id, names);
    if names.len() > 0 {
        assert(after == with_model(before, id, name));
        let places = lemma_with_models_keys(rows, id, front);
        if k < before.len() {
            lemma_with_models_rows(rows, id, front, k);
            let j = k - rows.len();
            assert(before[rows.len() + j].0 == front[places[j]]);
            assert(names[places[j]] != names[names.len() - 1]);
            assert(before[k].0 != name);
            assert(after[k] == before[k]);
        } else {
            lemma_new_row(id, name);
        }
    }
}

/// The models that configuring a provider adds hold the provider and the name, in this order,
/// and nothing else.
pub proof fn law_prepare_adds_plain_models(doc: &mut DocumentMut, id: &str, c: &Value, k: int)
    requires
        call_ensures(prepare_in, (doc, id, c), Ok::<(), AppError>(())),
        rows_in(document_tree(*old(doc)), "models"@).len() <= k < rows_in(
            document_tree(*final(doc)),
            "models"@,
        ).len(),
    ensures
        is_new_row(rows_in(document_tree(*final(doc)), "models"@)[k], id@),
{
    let tree = document_tree(*old(doc));
    let done = document_tree(*final(doc));
    let config = json_tree(*c);
    lemma_sections();
    lemma_find_prepared(tree, id@, config, done, "models"@);
    law_wanted_models_are_distinct(config);
    lemma_with_models_rows(rows_in(tree, "models"@), id@, wanted_models(config), k);
}

/// Putting a provider to use keeps the keys of a document in their order, and adds "models" and
/// "default_model" after them, in this order, where they are new; a model that is added holds
/// the provider and the name, in this order, and nothing else.
pub proof fn law_select_adds_in_order(doc: &mut DocumentMut, id: &str, c: &Value)
    requires
        call_ensures(select_in, (doc, id, c), ()),
    ensures
        ({
            let before = document_tree(*old(doc));
            let after = document_tree(*final(doc));
            let rows = rows_in(after, "models"@);
            &&& adds_keys(
                after,
                before,
                if_new(before, "models"@) + if_new(before, "default_model"@),
            )
            &&& rows.len() > rows_in(before, "models"@).len() ==> is_new_row(rows.last(), id@)
        }),
{
    let before = document_tree(*old(doc));
    let after = document_tree(*final(doc));
    let config = json_tree(*c);
    let target = target_model(before, id@, config);
    let none = Toml::Table(Seq::empty());
    lemma_sections();
    let start = Seq::<Seq<char>>::empty();
    let b = if_new(before, "models"@);
    let d = if_new(before, "default_model"@);
    assert(adds_keys(before, before, start));
    let tabled = with_table(before, "models"@);
    lemma_put_adds(before, start, before, "models"@, none);
    lemma_find_put(before, "models"@, none, "models"@);
    lemma_find_put(before, "models"@, none, "default_model"@);
    assert(start + b =~= b);
    assert(adds_keys(tabled, before, b));
    let known = match table_in(tabled, "models"@) {
        Some(rows) => put(tabled, "models"@, Toml::Table(with_provider(rows, id@, target))),
        None => tabled,
    };
    if let Some(rows) = table_in(tabled, "models"@) {
        let more = Toml::Table(with_provider(rows, id@, target));
        lemma_put_adds(before, b, tabled, "models"@, more);
        lemma_find_put(tabled, "models"@, more, "default_model"@);
        assert(b + if_new(tabled, "models"@) =~= b);
    }
    assert(adds_keys(known, before, b));
    lemma_put_adds(before, b, known, "default_model"@, Toml::Str(target));
    assert(if_new(known, "default_model"@) == d);
    lemma_find_selected(before, id@, config, "models"@);
    let rows = rows_in(before, "models"@);
    assert(rows == model_rows(before));
    lemma_new_row(id@, target);
    lemma_put_keys(rows, target, Toml::Table(assigned(Seq::empty(), id@, target)));
    if let Some(Toml::Table(t)) = find(rows, target) {
        lemma_put_keys(rows, target, Toml::Table(put(t, "provider"@, Toml::Str(id@))));
    }
}

/// Setting the default model keeps the keys of a document in their order, with "default_model"
/// after them where it is new.
pub proof fn law_set_default_adds_last(doc: &mut DocumentMut, name: &str)
    requires
        call_ensures(set_default_in, (doc, name), ()),
    ensures
        adds_keys(
            document_tree(*final(doc)),
            document_tree(*old(doc)),
            if_new(document_tree(*old(doc)), "default_model"@),
        ),
{
    let before = document_tree(*old(doc));
    let start = Seq::<Seq<char>>::empty();
    assert(adds_keys(before, before, start));
    lemma_put_adds(before, start, before, "default_model"@, Toml::Str(name@));
    assert(start + if_new(before, "default_model"@) =~= if_new(before, "default_model"@));
}

/// The providers keep their order when one is configured, with that one after them where it is
/// new. Its settings keep their order too, and what is new among "type", "base_url" and
/// "api_key" comes after them, in this order, unless the key is taken away.
pub proof fn law_prepare_adds_settings_in_order(doc: &mut DocumentMut, id: &str, c: &Value)
    requires
        call_ensures(prepare_in, (doc, id, c), Ok::<(), AppError>(())),
    ensures
        adds_keys(
            rows_in(document_tree(*final(doc)), "providers"@),
            rows_in(document_tree(*old(doc)), "providers"@),
            if_new(rows_in(document_tree(*old(doc)), "providers"@), id@),
        ),
        ({
            let before = rows_in(rows_in(document_tree(*old(doc)), "providers"@), id@);
            let after = rows_in(rows_in(document_tree(*final(doc)), "providers"@), id@);
            has_key(after, "api_key"@) || !has_key(before, "api_key"@) ==> adds_keys(
                after,
                before,
                if_new(before, "type"@) + (if has_key(after, "base_url"@) {
                    if_new(before, "base_url"@)
                } else {
                    Seq::empty()
                }) + (if has_key(after, "api_key"@) {
                    if_new(before, "api_key"@)
                } else {
                    Seq::empty()
                }),
            )
        }),
{
    let tree = document_tree(*old(doc));
    let done = document_tree(*final(doc));
    let config = json_tree(*c);
    law_prepare_writes_settings(tree, id@, config, done);
    let p = rows_in(rows_in(tree, "providers"@), id@);
    let after = configured(p, config);
    lemma_fields();
    lemma_configured(p, config);
    let start = Seq::<Seq<char>>::empty();
    lemma_find_prepared(tree, id@, config, done, "providers"@);
    let rows = rows_in(tree, "providers"@);
    let none = Toml::Table(Seq::empty());
    let n = if_new(rows, id@);
    assert(adds_keys(rows, rows, start));
    lemma_put_adds(rows, start, rows, id@, none);
    lemma_find_put(rows, id@, none, id@);
    assert(start + n =~= n);
    assert(adds_keys(with_table(rows, id@), rows, n));
    lemma_put_adds(rows, n, with_table(rows, id@), id@, Toml::Table(after));
    assert(n + if_new(with_table(rows, id@), id@) =~= n);
    assert(adds_keys(p, p, start));
    let kind = Toml::Str(wanted_kind(config));
    let kinded = put(p, "type"@, kind);
    let t = if_new(p, "type"@);
    lemma_put_adds(p, start, p, "type"@, kind);
    assert(start + t =~= t);
    lemma_find_put(p, "type"@, kind, "base_url"@);
    lemma_find_put(p, "type"@, kind, "api_key"@);
    let located = match wanted_url(config) {
        Some(url) => put(kinded, "base_url"@, Toml::Str(url)),
        None => kinded,
    };
    let u: Seq<Seq<char>> = if has_key(after, "base_url"@) {
        if_new(p, "base_url"@)
    } else {
        Seq::empty()
    };
    if let Some(url) = wanted_url(config) {
        lemma_put_adds(p, t, kinded, "base_url"@, Toml::Str(url));
        lemma_find_put(kinded, "base_url"@, Toml::Str(url), "api_key"@);
    } else {
        assert(t + u =~= t);
    }
    assert(adds_keys(located, p, t + u));
    assert(find(located, "api_key"@) == find(p, "api_key"@));
    if let Some(key) = wanted_key(config) {
        lemma_put_adds(p, t + u, located, "api_key"@, Toml::Str(key));
    } else if mentions_key(config) {
        if !has_key(p, "api_key"@) {
            lemma_find_somewhere(located, "api_key"@);
            lemma_full_filter(located, other_than("api_key"@));
            assert((t + u) + Seq::<Seq<char>>::empty() =~= t + u);
        }
    } else {
        assert(!has_key(after, "api_key"@) || has_key(p, "api_key"@));
        assert((t + u) + Seq::<Seq<char>>::empty() =~= t + u);
    }
}

/// Removing a provider keeps the keys of a document, in their order, and what is a table stays
/// one, though an empty one; only the default model may go.
pub proof fn law_remove_keeps_the_sections(doc: &mut DocumentMut, id: &str, key: Seq<char>)
    requires
        call_ensures(remove_in, (doc, id), ()),
    ensures
        ({
            let before = document_tree(*old(doc));
            let after = document_tree(*final(doc));
            &&& key != "default_model"@ ==> has_key(after, key) == has_key(before, key)
            &&& key != "default_model"@ ==> (table_in(after, key) is Some <==> table_in(
                before,
                key,
            ) is Some)
            &&& has_key(after, "default_model"@) == has_key(before, "default_model"@) ==> adds_keys(
                after,
                before,
                Seq::empty(),
            )
        }),
{
    let before = document_tree(*old(doc));
    let after = document_tree(*final(doc));
    let none = Seq::<Seq<char>>::empty();
    lemma_sections();
    if key != "default_model"@ {
        lemma_find_removed(before, id@, key);
        lemma_find_cleared(before, id@, key);
    }
    let closed = match table_in(before, "providers"@) {
        Some(rows) => put(before, "providers"@, Toml::Table(without(rows, id@))),
        None => before,
    };
    assert(adds_keys(before, before, none));
    assert(none + none =~= none);
    if let Some(rows) = table_in(before, "providers"@) {
        let left = Toml::Table(without(rows, id@));
        lemma_put_adds(before, none, before, "providers"@, left);
        lemma_find_put(before, "providers"@, left, "models"@);
    }
    assert(adds_keys(closed, before, none));
    let gone = cleared(before, id@);
    if let Some(rows) = table_in(closed, "models"@) {
        let left = Toml::Table(rows.filter(not_served_by(id@)));
        lemma_put_adds(before, none, closed, "models"@, left);
    }
    assert(adds_keys(gone, before, none));
    if loses_default(before, id@) {
        if model_rows(gone).len() > 0 {
            lemma_put_adds(
                before,
                none,
                gone,
                "default_model"@,
                Toml::Str(model_rows(gone)[0].0),
            );
        } else {
            lemma_find_without(gone, "default_model"@, "default_model"@);
            lemma_find_cleared(before, id@, "default_model"@);
        }
    }
}

} // verus!
