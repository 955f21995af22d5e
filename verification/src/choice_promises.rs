//! What choosing a provider or a default model, and removing a provider, promise, said of the
//! texts before and after.

use crate::changes::{assigned, can_remove, cleared, gains_model, lemma_fields, lemma_sections};
use crate::changes::{loses_default, not_served_by, removed, selected, serves, target_model};
use crate::changes::with_default;
use crate::editing::{remove_provider, set_current_provider, set_default_model};
use crate::error::AppError;
use crate::filters::{lemma_filter_keeps, lemma_filter_positions};
use crate::json::{json_tree, member_of, Json};
use crate::laws::{law_default_is_set, law_remove_keeps_others, law_remove_moves_default};
use crate::laws::{law_removed_is_gone, lemma_assigned, lemma_find_cleared, lemma_find_removed};
use crate::laws::{lemma_find_selected, lemma_find_with_provider, lemma_models_regular, lemma_serves};
use crate::laws::rows_in;
use crate::listing::{get_current_provider_id, model_rows, served_by};
use crate::paths::{joined_names, path_names, takes_names};
use crate::prepare_promises::lemma_opened;
use crate::promises::{has_room_for, is_document_of, is_first_of, is_first_other, is_table_or_absent};
use crate::promises::{lemma_item_below, lemma_item_under, lemma_stays_at, names_provider, stays_at};
use crate::round_trips::{lemma_paths, lemma_same, read_from};
use crate::saving::FileWrite;
use crate::text::trimmed;
use crate::text_promises::{has_no_doubled_quote, is_interrupted, law_only_runs_of_quotes_are_refused};
use crate::text_promises::law_single_quotes_are_taken;
use crate::toml_access::{renders, toml_document};
use crate::toml_doc::{find, has_key, holds_same, lemma_find_put, lemma_find_without, regular, table_in};
use crate::toml_doc::{Entries, Toml};
use serde_json::Value;
use std::path::PathBuf;
use vstd::prelude::*;

verus! {

/// `w` is a write to the configuration file in `dir`: "config.toml" joined to the directory,
/// which the owner writes and all read.
pub open spec fn goes_to_config(w: FileWrite, dir: PathBuf) -> bool {
    &&& path_names(w.path) == joined_names(dir, "config.toml"@)
    &&& takes_names(dir) ==> path_names(w.path) == path_names(dir).push("config.toml"@)
    &&& w.mode == 0o644
}

// ---------------------------------------------------------------------------
// Putting a provider to use
// ---------------------------------------------------------------------------

/// `name` is the model to put to use: the string under "model" of the configuration, whatever
/// the document holds; without one, the first model whose row names the provider; and the name
/// of the provider where there is none.
pub open spec fn is_target(doc: Entries, id: Seq<char>, c: Json, name: Seq<char>) -> bool {
    match member_of(c, "model"@) {
        Some(Json::Str(m)) => name == m,
        _ => {
            ||| exists|i: int|
                #[trigger] is_first_of(rows_in(doc, "models"@), id, i) && name == rows_in(
                    doc,
                    "models"@,
                )[i].0
            ||| name == id && forall|i: int|
                0 <= i < rows_in(doc, "models"@).len() ==> !names_provider(
                    (#[trigger] rows_in(doc, "models"@)[i]).1,
                    id,
                )
        },
    }
}

/// An entry is served by `id` where it is a table that names it.
pub proof fn lemma_names_provider(id: Seq<char>)
    ensures
        forall|e: (Seq<char>, Toml)| #[trigger] served_by(id)(e) == names_provider(e.1, id),
        forall|e: (Seq<char>, Toml)| #[trigger] not_served_by(id)(e) == !names_provider(e.1, id),
{
    assert forall|e: (Seq<char>, Toml)| #[trigger] served_by(id)(e) == names_provider(e.1, id) by {
    }
    assert forall|e: (Seq<char>, Toml)| #[trigger] not_served_by(id)(e) == !names_provider(
        e.1,
        id,
    ) by {
        assert(served_by(id)(e) == names_provider(e.1, id));
    }
}

/// The model to make the default one is the one to put to use.
proof fn lemma_target(doc: Entries, id: Seq<char>, c: Json, name: Seq<char>)
    ensures
        is_target(doc, id, c, name) <==> target_model(doc, id, c) == name,
{
    let rows = rows_in(doc, "models"@);
    let keep = served_by(id);
    let served = rows.filter(keep);
    assert(rows == model_rows(doc));
    lemma_names_provider(id);
    let places = lemma_filter_positions(rows, keep);
    if served.len() > 0 {
        let first = places[0];
        assert(rows[first] == served[0]);
        assert forall|j: int| 0 <= j < first implies !names_provider((#[trigger] rows[j]).1, id) by {
            if keep(rows[j]) {
                let k = choose|k: int| 0 <= k < places.len() && places[k] == j;
                assert(places[0] <= places[k]);
            }
        }
        assert(keep(rows[first]));
        assert(is_first_of(rows, id, first));
        assert forall|i: int| #[trigger] is_first_of(rows, id, i) implies i == first by {
            if i < first {
                assert(!names_provider(rows[i].1, id));
            } else if first < i {
                assert(!names_provider(rows[first].1, id));
            }
        }
    } else {
        assert forall|i: int| 0 <= i < rows.len() implies !names_provider(
            (#[trigger] rows[i]).1,
            id,
        ) by {
            if keep(rows[i]) {
                let k = lemma_filter_keeps(rows, keep, i);
            }
        }
        assert forall|i: int| !#[trigger] is_first_of(rows, id, i) by {
            if is_first_of(rows, id, i) {
                assert(!names_provider(rows[i].1, id));
            }
        }
    }
}

/// What putting a provider to use writes.
proof fn lemma_selected(
    dir: &PathBuf,
    content: Option<&str>,
    id: &str,
    c: &Value,
    w: FileWrite,
    doc: Entries,
)
    requires
        call_ensures(set_current_provider, (dir, content, id, c), Ok::<FileWrite, AppError>(w)),
        is_document_of(content, doc),
    ensures
        renders(w.content@, selected(doc, id@, json_tree(*c))),
        toml_document(w.content@) == Ok::<Entries, Seq<char>>(read_from(w.content@)),
        holds_same(read_from(w.content@), selected(doc, id@, json_tree(*c))),
        regular(Toml::Table(doc)),
{
    lemma_opened(content, doc);
}

/// The default model after a provider was put to use is the string under "model" of the
/// configuration, whatever models there are; only without one is it the first model whose row
/// names the provider, and the name of the provider only where there is no such row.
pub proof fn law_select_sets_the_default(
    dir: &PathBuf,
    content: Option<&str>,
    id: &str,
    c: &Value,
    w: FileWrite,
    doc: Entries,
    i: int,
)
    requires
        call_ensures(set_current_provider, (dir, content, id, c), Ok::<FileWrite, AppError>(w)),
        is_document_of(content, doc),
    ensures
        toml_document(w.content@) == Ok::<Entries, Seq<char>>(read_from(w.content@)),
        goes_to_config(w, *dir),
        ({
            let rows = rows_in(doc, "models"@);
            match member_of(json_tree(*c), "model"@) {
                Some(Json::Str(m)) => find(read_from(w.content@), "default_model"@) == Some(
                    Toml::Str(m),
                ),
                _ => {
                    &&& is_first_of(rows, id@, i) ==> find(
                        read_from(w.content@),
                        "default_model"@,
                    ) == Some(Toml::Str(rows[i].0))
                    &&& (forall|j: int|
                        0 <= j < rows.len() ==> !names_provider((#[trigger] rows[j]).1, id@))
                        ==> find(read_from(w.content@), "default_model"@) == Some(Toml::Str(id@))
                },
            }
        }),
{
    let config = json_tree(*c);
    let rows = rows_in(doc, "models"@);
    lemma_selected(dir, content, id, c, w, doc);
    let tree = selected(doc, id@, config);
    let target = target_model(doc, id@, config);
    lemma_find_selected(doc, id@, config, "default_model"@);
    lemma_same(read_from(w.content@), tree, "default_model"@, ""@, ""@);
    lemma_target(doc, id@, config, target);
    lemma_target(doc, id@, config, rows[i].0);
    lemma_target(doc, id@, config, id@);
}

/// The model that was put to use names the provider, and is added with its own name where it
/// was not there. Where the models, or its row, are something else than a table, these stay.
pub proof fn law_select_gives_the_model(
    dir: &PathBuf,
    content: Option<&str>,
    id: &str,
    c: &Value,
    w: FileWrite,
    doc: Entries,
    name: Seq<char>,
)
    requires
        call_ensures(set_current_provider, (dir, content, id, c), Ok::<FileWrite, AppError>(w)),
        is_document_of(content, doc),
        is_target(doc, id@, json_tree(*c), name),
    ensures
        find(read_from(w.content@), "default_model"@) == Some(Toml::Str(name)),
        has_room_for(doc, name) ==> ({
            let row = rows_in(rows_in(read_from(w.content@), "models"@), name);
            &&& find(row, "provider"@) == Some(Toml::Str(id@))
            &&& !has_key(rows_in(doc, "models"@), name) ==> find(row, "model"@) == Some(
                Toml::Str(name),
            )
        }),
        !is_table_or_absent(doc, "models"@) ==> stays_at(read_from(w.content@), doc, seq!["models"@]),
        !is_table_or_absent(rows_in(doc, "models"@), name) ==> stays_at(
            read_from(w.content@),
            doc,
            seq!["models"@, name],
        ),
{
    let config = json_tree(*c);
    lemma_selected(dir, content, id, c, w, doc);
    let tree = selected(doc, id@, config);
    let again = read_from(w.content@);
    lemma_target(doc, id@, config, name);
    lemma_sections();
    lemma_fields();
    lemma_find_selected(doc, id@, config, "default_model"@);
    lemma_find_selected(doc, id@, config, "models"@);
    lemma_find_with_provider(model_rows(doc), id@, name, name);
    lemma_assigned(Seq::empty(), id@, name);
    if let Some(t) = table_in(model_rows(doc), name) {
        lemma_find_put(t, "provider"@, Toml::Str(id@), "provider"@);
    }
    lemma_same(again, tree, "default_model"@, ""@, ""@);
    lemma_same(again, tree, "models"@, name, "provider"@);
    lemma_same(again, tree, "models"@, name, "model"@);
    lemma_paths(tree, "models"@, name, name);
    lemma_paths(doc, "models"@, name, name);
    if !is_table_or_absent(doc, "models"@) {
        lemma_stays_at(again, tree, doc, seq!["models"@]);
    }
    if !is_table_or_absent(rows_in(doc, "models"@), name) {
        lemma_stays_at(again, tree, doc, seq!["models"@, name]);
    }
}

/// What putting a provider to use with the model `name` may change: the default model, the
/// provider of the model, and the name in its row where that is added.
pub open spec fn is_touched_by_select(doc: Entries, path: Seq<Seq<char>>, name: Seq<char>) -> bool {
    ||| path[0] == "default_model"@
    ||| path[0] == "models"@ && (path.len() == 1 || path[1] == name && (path.len() == 2 || path[2]
        == "provider"@ || path[2] == "model"@ && !has_key(rows_in(doc, "models"@), name)))
}

/// Putting a provider to use changes nothing but what it is about.
pub proof fn law_select_touches_nothing_else(
    dir: &PathBuf,
    content: Option<&str>,
    id: &str,
    c: &Value,
    w: FileWrite,
    doc: Entries,
    name: Seq<char>,
    path: Seq<Seq<char>>,
)
    requires
        call_ensures(set_current_provider, (dir, content, id, c), Ok::<FileWrite, AppError>(w)),
        is_document_of(content, doc),
        is_target(doc, id@, json_tree(*c), name),
        path.len() > 0,
        !is_touched_by_select(doc, path, name),
    ensures
        stays_at(read_from(w.content@), doc, path),
{
    let config = json_tree(*c);
    lemma_selected(dir, content, id, c, w, doc);
    let tree = selected(doc, id@, config);
    lemma_target(doc, id@, config, name);
    lemma_sections();
    lemma_find_selected(doc, id@, config, path[0]);
    if path[0] == "models"@ {
        lemma_item_below(tree, path);
        lemma_item_below(doc, path);
        let rest = path.drop_first();
        let rows = rows_in(tree, "models"@);
        let old_rows = rows_in(doc, "models"@);
        assert(old_rows == model_rows(doc));
        lemma_find_with_provider(old_rows, id@, name, path[1]);
        if path[1] != name {
            lemma_item_under(rows, old_rows, rest);
        } else {
            lemma_item_below(rows, rest);
            lemma_item_below(old_rows, rest);
            let key = path[2];
            assert(rest.drop_first()[0] == key);
            lemma_assigned(Seq::empty(), id@, name);
            let none: Entries = Seq::empty();
            assert(find(assigned(none, id@, name), key) == find(assigned(none, id@, name), key));
            if let Some(t) = table_in(old_rows, name) {
                lemma_find_put(t, "provider"@, Toml::Str(id@), key);
            }
            lemma_item_under(rows_in(rows, name), rows_in(old_rows, name), rest.drop_first());
        }
    } else {
        lemma_item_under(tree, doc, path);
    }
    lemma_stays_at(read_from(w.content@), tree, doc, path);
}

/// Putting a provider to use succeeds exactly where the model can be written, and the name of
/// the provider too where the row of the model is written and does not name it; else it says
/// that there are too many quotes.
pub proof fn law_select_succeeds(
    dir: &PathBuf,
    content: Option<&str>,
    id: &str,
    c: &Value,
    r: Result<FileWrite, AppError>,
    doc: Entries,
    name: Seq<char>,
)
    requires
        call_ensures(set_current_provider, (dir, content, id, c), r),
        is_document_of(content, doc),
        is_target(doc, id@, json_tree(*c), name),
    ensures
        r is Ok <==> is_interrupted(name, '\'') && is_interrupted(name, '"') && (has_room_for(
            doc,
            name,
        ) && !(find(rows_in(doc, "models"@), name) matches Some(t) && names_provider(t, id@))
            ==> is_interrupted(id@, '\'') && is_interrupted(id@, '"')),
        r is Err ==> (r matches Err(AppError::Config(s)) && s@
            == "Kimi config.toml cannot hold this many quotes in a row"@),
{
    lemma_opened(content, doc);
    lemma_target(doc, id@, json_tree(*c), name);
    law_only_runs_of_quotes_are_refused(name);
    law_only_runs_of_quotes_are_refused(id@);
    let rows = rows_in(doc, "models"@);
    assert(rows == model_rows(doc));
    assert(gains_model(doc, id@, name) <==> has_room_for(doc, name) && !(find(
        rows,
        name,
    ) matches Some(t) && names_provider(t, id@)));
}

/// A provider that was put to use is the one in use when the file is read again. Left out are
/// a file whose models, or whose row for the model, are something else than a table.
pub proof fn law_selected_is_current(
    dir: &PathBuf,
    content: Option<&str>,
    id: &str,
    c: &Value,
    w: FileWrite,
    doc: Entries,
    name: Seq<char>,
    text: &str,
    r: Result<Option<String>, AppError>,
)
    requires
        call_ensures(set_current_provider, (dir, content, id, c), Ok::<FileWrite, AppError>(w)),
        is_document_of(content, doc),
        is_target(doc, id@, json_tree(*c), name),
        has_room_for(doc, name),
        text@ == w.content@,
        call_ensures(get_current_provider_id, (Some(text),), r),
    ensures
        r matches Ok(Some(current)) && current@ == id@,
{
    law_select_gives_the_model(dir, content, id, c, w, doc, name);
}

// ---------------------------------------------------------------------------
// Setting the default model
// ---------------------------------------------------------------------------

/// Setting the default model succeeds with every name in which no quote stands 256 times in a
/// row, and so with every one in which none stands next to an equal one, whatever else is in
/// it, on every file that can be read, is blank or is not there. Else it says that there are
/// too many quotes.
pub proof fn law_default_takes_names(
    dir: &PathBuf,
    content: Option<&str>,
    name: &str,
    r: Result<(FileWrite, String), AppError>,
    doc: Entries,
)
    requires
        call_ensures(set_default_model, (dir, content, name), r),
        is_document_of(content, doc),
    ensures
        r is Ok <==> is_interrupted(name@, '\'') && is_interrupted(name@, '"'),
        has_no_doubled_quote(name@) ==> r is Ok,
        r is Err ==> (r matches Err(AppError::Config(s)) && s@
            == "Kimi config.toml cannot hold this many quotes in a row"@),
{
    lemma_opened(content, doc);
    law_only_runs_of_quotes_are_refused(name@);
    if has_no_doubled_quote(name@) {
        law_single_quotes_are_taken(name@);
    }
}

/// The default model that was set is the one in the file, and nothing else changes there; its
/// name comes back.
pub proof fn law_default_is_written(
    dir: &PathBuf,
    content: Option<&str>,
    name: &str,
    w: FileWrite,
    back: String,
    doc: Entries,
    path: Seq<Seq<char>>,
)
    requires
        call_ensures(
            set_default_model,
            (dir, content, name),
            Ok::<(FileWrite, String), AppError>((w, back)),
        ),
        is_document_of(content, doc),
    ensures
        toml_document(w.content@) == Ok::<Entries, Seq<char>>(read_from(w.content@)),
        find(read_from(w.content@), "default_model"@) == Some(Toml::Str(name@)),
        path.len() > 0 && path[0] != "default_model"@ ==> stays_at(read_from(w.content@), doc, path),
        back@ == name@,
        goes_to_config(w, *dir),
{
    lemma_opened(content, doc);
    let tree = with_default(doc, name@);
    law_default_is_set(doc, name@, name@);
    lemma_same(read_from(w.content@), tree, "default_model"@, ""@, ""@);
    if path.len() > 0 && path[0] != "default_model"@ {
        assert(find(tree, path[0]) == find(doc, path[0]));
        lemma_item_under(tree, doc, path);
        lemma_stays_at(read_from(w.content@), tree, doc, path);
    }
}

// ---------------------------------------------------------------------------
// Removing a provider
// ---------------------------------------------------------------------------

/// The default model is one whose row names `id` as its provider.
pub open spec fn is_default_of(doc: Entries, id: Seq<char>) -> bool {
    find(doc, "default_model"@) matches Some(Toml::Str(m)) && (find(
        rows_in(doc, "models"@),
        m,
    ) matches Some(t) && names_provider(t, id))
}

/// The models of a provider are those whose rows name it.
proof fn lemma_serves_names(doc: Entries, id: Seq<char>, name: Seq<char>)
    requires
        regular(Toml::Table(doc)),
    ensures
        serves(doc, id, name) <==> (find(rows_in(doc, "models"@), name) matches Some(t)
            && names_provider(t, id)),
{
    lemma_models_regular(doc);
    lemma_serves(doc, id, name);
    lemma_names_provider(id);
    assert(rows_in(doc, "models"@) == model_rows(doc));
}

/// The default model goes with a provider where its row names it.
proof fn lemma_loses_default(doc: Entries, id: Seq<char>)
    requires
        regular(Toml::Table(doc)),
    ensures
        loses_default(doc, id) <==> is_default_of(doc, id),
{
    lemma_sections();
    lemma_find_cleared(doc, id, "default_model"@);
    if let Some(Toml::Str(m)) = find(doc, "default_model"@) {
        lemma_serves_names(doc, id, m);
    }
}

/// The models that are left when a provider goes start with the first whose row does not name
/// it.
proof fn lemma_left(doc: Entries, id: Seq<char>, i: int)
    ensures
        ({
            let rows = rows_in(doc, "models"@);
            let left = model_rows(cleared(doc, id));
            &&& is_first_other(rows, id, i) ==> left.len() > 0 && left[0] == rows[i]
            &&& left.len() == 0 <==> forall|j: int|
                0 <= j < rows.len() ==> names_provider((#[trigger] rows[j]).1, id)
            &&& left.len() > 0 ==> exists|k: int|
                #[trigger] is_first_other(rows, id, k) && left[0] == rows[k]
        }),
{
    let rows = rows_in(doc, "models"@);
    let keep = not_served_by(id);
    let left = model_rows(cleared(doc, id));
    lemma_sections();
    lemma_names_provider(id);
    lemma_find_cleared(doc, id, "models"@);
    assert(left == rows.filter(keep)) by {
        reveal(Seq::filter);
        assert(left =~= rows.filter(keep));
    }
    let places = lemma_filter_positions(rows, keep);
    if left.len() > 0 {
        let first = places[0];
        assert(keep(rows[first]));
        assert forall|j: int| 0 <= j < first implies names_provider((#[trigger] rows[j]).1, id) by {
            if keep(rows[j]) {
                let k = choose|k: int| 0 <= k < places.len() && places[k] == j;
                assert(places[0] <= places[k]);
            }
        }
        assert(is_first_other(rows, id, first));
        if is_first_other(rows, id, i) && i != first {
            if i < first {
                assert(names_provider(rows[i].1, id));
            } else {
                assert(names_provider(rows[first].1, id));
            }
        }
        assert(!names_provider(rows[first].1, id));
    } else {
        assert forall|j: int| 0 <= j < rows.len() implies names_provider(
            (#[trigger] rows[j]).1,
            id,
        ) by {
            if keep(rows[j]) {
                let k = lemma_filter_keeps(rows, keep, j);
            }
        }
        if is_first_other(rows, id, i) {
            assert(names_provider(rows[i].1, id));
        }
    }
}

/// What removing a provider writes.
proof fn lemma_removed(dir: &PathBuf, text: &str, id: &str, w: FileWrite, doc: Entries)
    requires
        call_ensures(
            remove_provider,
            (dir, Some(text), id),
            Ok::<Option<FileWrite>, AppError>(Some(w)),
        ),
        toml_document(text@) == Ok::<Entries, Seq<char>>(doc),
    ensures
        renders(w.content@, removed(doc, id@)),
        toml_document(w.content@) == Ok::<Entries, Seq<char>>(read_from(w.content@)),
        holds_same(read_from(w.content@), removed(doc, id@)),
        regular(Toml::Table(doc)),
{
}

/// Removing a provider from a text that is a document succeeds, however many models are left,
/// unless the default model goes with the provider and the name of the first model that is
/// left has 256 equal quotes in a row; so it always does where no name of a model has. Without
/// a file there is nothing to write, and a text that is no document is refused.
pub proof fn law_remove_succeeds(
    dir: &PathBuf,
    content: Option<&str>,
    id: &str,
    r: Result<Option<FileWrite>, AppError>,
    doc: Entries,
)
    requires
        call_ensures(remove_provider, (dir, content, id), r),
        content matches Some(text) ==> toml_document(text@) == Ok::<Entries, Seq<char>>(doc),
    ensures
        content is None ==> r == Ok::<Option<FileWrite>, AppError>(None),
        content is Some ==> ({
            let rows = rows_in(doc, "models"@);
            &&& r is Ok <==> forall|i: int|
                is_default_of(doc, id@) && #[trigger] is_first_other(rows, id@, i)
                    ==> is_interrupted(rows[i].0, '\'') && is_interrupted(rows[i].0, '"')
            &&& (forall|i: int|
                0 <= i < rows.len() ==> is_interrupted((#[trigger] rows[i]).0, '\'')
                    && is_interrupted(rows[i].0, '"')) ==> r is Ok
            &&& r is Ok ==> (r matches Ok(Some(w)) && goes_to_config(w, *dir))
            &&& r is Err ==> (r matches Err(AppError::Config(s)) && s@
                == "Kimi config.toml cannot hold this many quotes in a row"@)
        }),
{
    if content is Some {
        let rows = rows_in(doc, "models"@);
        let left = model_rows(cleared(doc, id@));
        lemma_loses_default(doc, id@);
        lemma_left(doc, id@, 0);
        assert forall|i: int| #[trigger] is_first_other(rows, id@, i) implies left.len() > 0
            && left[0] == rows[i] by {
            lemma_left(doc, id@, i);
        }
        if left.len() > 0 {
            law_only_runs_of_quotes_are_refused(left[0].0);
        }
        assert(can_remove(doc, id@) <==> forall|i: int|
            is_default_of(doc, id@) && #[trigger] is_first_other(rows, id@, i) ==> is_interrupted(
                rows[i].0,
                '\'',
            ) && is_interrupted(rows[i].0, '"'));
    }
}

/// A text that is no document is refused, with the reason, by the change that was asked for.
pub proof fn law_choices_refuse_what_they_cannot_read(
    dir: &PathBuf,
    text: &str,
    id: &str,
    c: &Value,
    reason: Seq<char>,
    gone: Result<Option<FileWrite>, AppError>,
    chosen: Result<FileWrite, AppError>,
    set: Result<(FileWrite, String), AppError>,
)
    requires
        toml_document(text@) == Err::<Entries, Seq<char>>(reason),
        call_ensures(remove_provider, (dir, Some(text), id), gone),
        call_ensures(set_current_provider, (dir, Some(text), id, c), chosen),
        call_ensures(set_default_model, (dir, Some(text), id), set),
    ensures
        gone matches Err(AppError::Config(s)) && s@ == "Failed to parse Kimi config.toml: "@ + reason,
        trimmed(text@).len() > 0 ==> (chosen matches Err(AppError::Config(s)) && s@
            == "Failed to parse Kimi config.toml: "@ + reason),
        trimmed(text@).len() > 0 ==> (set matches Err(AppError::Config(s)) && s@
            == "Failed to parse Kimi config.toml: "@ + reason),
{
}

/// What removing a provider may change: the provider, the models whose rows name it, and the
/// default model.
pub open spec fn is_touched_by_remove(doc: Entries, path: Seq<Seq<char>>, id: Seq<char>) -> bool {
    ||| path[0] == "default_model"@
    ||| path[0] == "providers"@ && (path.len() == 1 || path[1] == id)
    ||| path[0] == "models"@ && (path.len() == 1 || (find(rows_in(doc, "models"@), path[1]) matches Some(
        t,
    ) && names_provider(t, id)))
}

/// A provider that was removed is gone, with the models whose rows name it, and nothing else
/// is: the other providers and models, and what else the file holds, are as they were.
pub proof fn law_remove_takes_the_provider_alone(
    dir: &PathBuf,
    text: &str,
    id: &str,
    w: FileWrite,
    doc: Entries,
    name: Seq<char>,
    path: Seq<Seq<char>>,
)
    requires
        call_ensures(
            remove_provider,
            (dir, Some(text), id),
            Ok::<Option<FileWrite>, AppError>(Some(w)),
        ),
        toml_document(text@) == Ok::<Entries, Seq<char>>(doc),
    ensures
        !has_key(rows_in(read_from(w.content@), "providers"@), id@),
        (find(rows_in(doc, "models"@), name) matches Some(t) && names_provider(t, id@)) ==> !has_key(
            rows_in(read_from(w.content@), "models"@),
            name,
        ),
        path.len() > 0 && !is_touched_by_remove(doc, path, id@) ==> stays_at(
            read_from(w.content@),
            doc,
            path,
        ),
        !is_table_or_absent(doc, "providers"@) ==> stays_at(
            read_from(w.content@),
            doc,
            seq!["providers"@],
        ),
        !is_table_or_absent(doc, "models"@) ==> stays_at(read_from(w.content@), doc, seq!["models"@]),
        has_key(read_from(w.content@), "providers"@) ==> has_key(doc, "providers"@),
        has_key(read_from(w.content@), "models"@) ==> has_key(doc, "models"@),
{
    lemma_removed(dir, text, id, w, doc);
    let tree = removed(doc, id@);
    let again = read_from(w.content@);
    lemma_sections();
    law_removed_is_gone(doc, id@);
    law_remove_keeps_others(doc, id@);
    lemma_same(again, tree, "providers"@, id@, ""@);
    lemma_same(again, tree, "models"@, name, ""@);
    lemma_serves_names(doc, id@, name);
    assert(serves(doc, id@, name) ==> !has_key(model_rows(tree), name));
    assert(rows_in(tree, "models"@) == model_rows(tree));
    lemma_find_removed(doc, id@, "providers"@);
    lemma_find_removed(doc, id@, "models"@);
    lemma_find_cleared(doc, id@, "providers"@);
    lemma_find_cleared(doc, id@, "models"@);
    lemma_paths(tree, "providers"@, ""@, ""@);
    lemma_paths(doc, "providers"@, ""@, ""@);
    lemma_paths(tree, "models"@, ""@, ""@);
    lemma_paths(doc, "models"@, ""@, ""@);
    if !is_table_or_absent(doc, "providers"@) {
        lemma_stays_at(again, tree, doc, seq!["providers"@]);
    }
    if !is_table_or_absent(doc, "models"@) {
        lemma_stays_at(again, tree, doc, seq!["models"@]);
    }
    if path.len() > 0 && !is_touched_by_remove(doc, path, id@) {
        if path[0] == "providers"@ {
            lemma_item_below(tree, path);
            lemma_item_below(doc, path);
            assert(find(rows_in(tree, "providers"@), path[1]) == find(
                rows_in(doc, "providers"@),
                path[1],
            ));
            lemma_item_under(
                rows_in(tree, "providers"@),
                rows_in(doc, "providers"@),
                path.drop_first(),
            );
        } else if path[0] == "models"@ {
            lemma_item_below(tree, path);
            lemma_item_below(doc, path);
            lemma_serves_names(doc, id@, path[1]);
            assert(find(model_rows(tree), path[1]) == find(model_rows(doc), path[1]));
            lemma_item_under(rows_in(tree, "models"@), rows_in(doc, "models"@), path.drop_first());
        } else {
            assert(find(tree, path[0]) == find(doc, path[0]));
            lemma_item_under(tree, doc, path);
        }
        lemma_stays_at(again, tree, doc, path);
    }
}

/// Where the row of the default model names the provider that is removed, the first model whose
/// row does not becomes the default one, and there is none where every row does. In every
/// other case the default model stays.
pub proof fn law_remove_hands_the_default_on(
    dir: &PathBuf,
    text: &str,
    id: &str,
    w: FileWrite,
    doc: Entries,
    i: int,
)
    requires
        call_ensures(
            remove_provider,
            (dir, Some(text), id),
            Ok::<Option<FileWrite>, AppError>(Some(w)),
        ),
        toml_document(text@) == Ok::<Entries, Seq<char>>(doc),
    ensures
        ({
            let rows = rows_in(doc, "models"@);
            let again = read_from(w.content@);
            &&& is_default_of(doc, id@) && is_first_other(rows, id@, i) ==> find(
                again,
                "default_model"@,
            ) == Some(Toml::Str(rows[i].0))
            &&& is_default_of(doc, id@) && (forall|j: int|
                0 <= j < rows.len() ==> names_provider((#[trigger] rows[j]).1, id@)) ==> !has_key(
                again,
                "default_model"@,
            )
            &&& !is_default_of(doc, id@) ==> has_key(again, "default_model"@) == has_key(
                doc,
                "default_model"@,
            ) && stays_at(again, doc, seq!["default_model"@])
        }),
{
    lemma_removed(dir, text, id, w, doc);
    let tree = removed(doc, id@);
    let again = read_from(w.content@);
    lemma_sections();
    lemma_loses_default(doc, id@);
    lemma_left(doc, id@, i);
    lemma_find_cleared(doc, id@, "default_model"@);
    lemma_find_removed(doc, id@, "models"@);
    law_remove_moves_default(doc, id@);
    if let Some(Toml::Str(m)) = find(doc, "default_model"@) {
        lemma_serves_names(doc, id@, m);
    }
    lemma_same(again, tree, "default_model"@, ""@, ""@);
    lemma_paths(tree, "default_model"@, ""@, ""@);
    lemma_paths(doc, "default_model"@, ""@, ""@);
    if loses_default(doc, id@) && model_rows(cleared(doc, id@)).len() == 0 {
        lemma_find_without(cleared(doc, id@), "default_model"@, "default_model"@);
    }
    if !is_default_of(doc, id@) {
        lemma_stays_at(again, tree, doc, seq!["default_model"@]);
    }
}

} // verus!
