//! The words in which it is said what the operations promise: what a configuration names, what
//! a text holds, and what stays as it was.

use crate::changes::{model_name, wanted_models, with_names};
use crate::json::{member_of, Json};
use crate::laws::rows_in;
use crate::text::trimmed;
use crate::toml_access::toml_document;
use crate::toml_doc::{find, holds_same, item_at, may_vanish, same_kind, value_at, Entries, Toml};
use vstd::prelude::*;

verus! {

// ---------------------------------------------------------------------------
// What a text holds, and what stays
// ---------------------------------------------------------------------------

/// `doc` is what the file with this text holds: nothing where there is no file, or nothing but
/// white space in it.
pub open spec fn is_document_of(content: Option<&str>, doc: Entries) -> bool {
    match content {
        Some(text) if trimmed(text@).len() > 0 => toml_document(text@) == Ok::<Entries, Seq<char>>(
            doc,
        ),
        _ => doc.len() == 0,
    }
}

/// What `path` leads to in `doc` is what it leads to in `again`, but for an empty table of
/// providers or of models, which may be gone.
pub open spec fn stays_at(again: Entries, doc: Entries, path: Seq<Seq<char>>) -> bool {
    &&& value_at(again, path) == value_at(doc, path)
    &&& item_at(again, path) matches Some(a) ==> item_at(doc, path) matches Some(b) && same_kind(
        a,
        b,
    )
    &&& item_at(doc, path) matches Some(b) ==> may_vanish(path, b) || item_at(again, path) is Some
}

/// What is kept by a change is read back after it.
pub proof fn lemma_stays_at(again: Entries, tree: Entries, doc: Entries, path: Seq<Seq<char>>)
    requires
        holds_same(again, tree),
        item_at(tree, path) == item_at(doc, path),
    ensures
        stays_at(again, doc, path),
{
    assert(value_at(again, path) == value_at(tree, path));
    assert(item_at(again, path) is Some ==> item_at(tree, path) is Some);
    assert(item_at(tree, path) is Some ==> may_vanish(path, item_at(tree, path)->0) || item_at(
        again,
        path,
    ) is Some);
}

/// A path leads to what stands under its first key, and further.
pub proof fn lemma_item_under(s: Entries, t: Entries, path: Seq<Seq<char>>)
    requires
        path.len() > 0,
        find(s, path[0]) == find(t, path[0]),
    ensures
        item_at(s, path) == item_at(t, path),
{
}

/// A path of two keys or more leads through the table under its first key.
pub proof fn lemma_item_below(s: Entries, path: Seq<Seq<char>>)
    requires
        path.len() > 1,
    ensures
        item_at(s, path) == item_at(rows_in(s, path[0]), path.drop_first()),
        path.drop_first().len() == path.len() - 1,
        path.drop_first()[0] == path[1],
{
    let rest = path.drop_first();
    let none = Seq::<(Seq<char>, Toml)>::empty();
    assert(find(none, rest[0]) is None);
    assert(item_at(none, rest) is None);
}

/// The table under `key` stands there, or nothing does.
pub open spec fn is_table_or_absent(s: Entries, key: Seq<char>) -> bool {
    match find(s, key) {
        None => true,
        Some(Toml::Table(_)) => true,
        Some(_) => false,
    }
}

/// The row of the model `name` can be written: the models are a table, and the row is, or they
/// are not there.
pub open spec fn has_room_for(doc: Entries, name: Seq<char>) -> bool {
    is_table_or_absent(doc, "models"@) && is_table_or_absent(rows_in(doc, "models"@), name)
}

/// An item is a table that names `id` as its provider.
pub open spec fn names_provider(t: Toml, id: Seq<char>) -> bool {
    match t {
        Toml::Table(row) => find(row, "provider"@) == Some(Toml::Str(id)),
        _ => false,
    }
}

/// The row at `i` is the first that names `id` as its provider.
pub open spec fn is_first_of(rows: Entries, id: Seq<char>, i: int) -> bool {
    &&& 0 <= i < rows.len()
    &&& names_provider(rows[i].1, id)
    &&& forall|j: int| 0 <= j < i ==> !names_provider((#[trigger] rows[j]).1, id)
}

/// The row at `i` is the first that does not name `id` as its provider.
pub open spec fn is_first_other(rows: Entries, id: Seq<char>, i: int) -> bool {
    &&& 0 <= i < rows.len()
    &&& !names_provider(rows[i].1, id)
    &&& forall|j: int| 0 <= j < i ==> names_provider((#[trigger] rows[j]).1, id)
}

// ---------------------------------------------------------------------------
// What a configuration names
// ---------------------------------------------------------------------------

/// An element of the list of models names `name`: it is an object with that string under "id",
/// or, without a string there, the string itself, each trimmed.
pub open spec fn element_names(e: Json, name: Seq<char>) -> bool {
    match member_of(e, "id"@) {
        Some(Json::Str(s)) => trimmed(s) == name,
        _ => e matches Json::Str(s) && trimmed(s) == name,
    }
}

/// An element of the list of models names nothing but white space, or nothing at all.
pub open spec fn names_nothing(e: Json) -> bool {
    forall|name: Seq<char>| #[trigger] element_names(e, name) ==> name.len() == 0
}

/// A configuration names the model `name`: under "model", or in the list under "models".
pub open spec fn names_model(c: Json, name: Seq<char>) -> bool {
    &&& name.len() > 0
    &&& (member_of(c, "model"@) matches Some(Json::Str(s)) && trimmed(s) == name) || (member_of(
        c,
        "models"@,
    ) matches Some(Json::Array(a)) && exists|i: int|
        0 <= i < a.len() && element_names(#[trigger] a[i], name))
}

/// `name` is the first model that a configuration names: the one under "model", or, where that
/// is none, the one of the first element of the list that names one.
pub open spec fn names_first(c: Json, name: Seq<char>) -> bool {
    match member_of(c, "model"@) {
        Some(Json::Str(s)) if trimmed(s).len() > 0 => name == trimmed(s),
        _ => name.len() > 0 && (member_of(c, "models"@) matches Some(Json::Array(a)) && exists|i: int|
            0 <= i < a.len() && element_names(#[trigger] a[i], name) && forall|j: int|
                0 <= j < i ==> names_nothing(#[trigger] a[j])),
    }
}

/// The name of an element.
pub proof fn lemma_element(e: Json, name: Seq<char>)
    ensures
        model_name(e) == Some(name) <==> element_names(e, name) && name.len() > 0,
        model_name(e) is None <==> names_nothing(e),
{
    match member_of(e, "id"@) {
        Some(Json::Str(s)) => {
            assert(element_names(e, trimmed(s)));
        },
        _ => {
            if let Json::Str(s) = e {
                assert(element_names(e, trimmed(s)));
            }
        },
    }
}

/// The names after those of a list were added.
pub proof fn lemma_names_added(names: Seq<Seq<char>>, items: Seq<Json>, name: Seq<char>)
    ensures
        with_names(names, items).contains(name) <==> names.contains(name) || exists|i: int|
            0 <= i < items.len() && model_name(#[trigger] items[i]) == Some(name),
        with_names(names, items).len() >= names.len(),
        names.len() > 0 ==> with_names(names, items)[0] == names[0],
    decreases items.len(),
{
    if items.len() > 0 {
        let front = items.drop_last();
        let before = with_names(names, front);
        let after = with_names(names, items);
        lemma_names_added(names, front, name);
        if exists|i: int| 0 <= i < front.len() && model_name(#[trigger] front[i]) == Some(name) {
            let i = choose|i: int| 0 <= i < front.len() && model_name(#[trigger] front[i]) == Some(name);
            assert(items[i] == front[i]);
        }
        if exists|i: int| 0 <= i < items.len() && model_name(#[trigger] items[i]) == Some(name) {
            let i = choose|i: int| 0 <= i < items.len() && model_name(#[trigger] items[i]) == Some(name);
            if i < front.len() {
                assert(front[i] == items[i]);
            }
        }
        assert(items[items.len() - 1] == items.last());
        if before.contains(name) {
            let k = choose|k: int| 0 <= k < before.len() && before[k] == name;
            assert(after[k] == name);
        }
        if model_name(items.last()) == Some(name) && !before.contains(name) {
            assert(after[before.len() as int] == name);
        }
        if after.contains(name) {
            let k = choose|k: int| 0 <= k < after.len() && after[k] == name;
            if k < before.len() {
                assert(before[k] == name);
            }
        }
    }
}

/// The first name of a list.
proof fn lemma_first_added(items: Seq<Json>)
    ensures
        ({
            let names = with_names(Seq::empty(), items);
            &&& names.len() == 0 <==> forall|j: int|
                0 <= j < items.len() ==> model_name(#[trigger] items[j]) is None
            &&& names.len() > 0 ==> exists|i: int|
                0 <= i < items.len() && model_name(#[trigger] items[i]) == Some(names[0])
                    && forall|j: int| 0 <= j < i ==> model_name(#[trigger] items[j]) is None
        }),
    decreases items.len(),
{
    let names = with_names(Seq::empty(), items);
    if items.len() > 0 {
        let front = items.drop_last();
        let before = with_names(Seq::empty(), front);
        lemma_first_added(front);
        assert forall|j: int| 0 <= j < front.len() implies #[trigger] front[j] == items[j] by {}
        assert(items[items.len() - 1] == items.last());
        if before.len() > 0 {
            let i = choose|i: int|
                0 <= i < front.len() && model_name(#[trigger] front[i]) == Some(before[0])
                    && forall|j: int| 0 <= j < i ==> model_name(#[trigger] front[j]) is None;
            assert(names[0] == before[0]);
            assert(model_name(items[i]) == Some(names[0]));
            assert forall|j: int| 0 <= j < i implies model_name(#[trigger] items[j]) is None by {
                assert(model_name(front[j]) is None);
            }
        } else {
            assert forall|j: int| 0 <= j < front.len() implies model_name(
                #[trigger] items[j],
            ) is None by {
                assert(model_name(front[j]) is None);
            }
            if let Some(m) = model_name(items.last()) {
                assert(names =~= seq![m]);
                assert(model_name(items[items.len() - 1]) == Some(names[0]));
            }
        }
    }
}

/// The models that a configuration gives are those that it names, and the first of them is the
/// one that it names first.
pub proof fn lemma_wanted(c: Json, name: Seq<char>)
    ensures
        wanted_models(c).contains(name) <==> names_model(c, name),
        names_first(c, name) <==> wanted_models(c).len() > 0 && wanted_models(c)[0] == name,
        wanted_models(c).len() > 0 ==> names_model(c, wanted_models(c)[0]),
{
    let wanted = wanted_models(c);
    lemma_wanted_contains(c, name);
    if wanted.len() > 0 {
        lemma_wanted_contains(c, wanted[0]);
        assert(wanted.contains(wanted[0]));
    }
    match member_of(c, "model"@) {
        Some(Json::Str(s)) if trimmed(s).len() > 0 => {
            if let Some(Json::Array(items)) = member_of(c, "models"@) {
                lemma_names_added(seq![trimmed(s)], items, name);
            }
        },
        _ => {
            if let Some(Json::Array(items)) = member_of(c, "models"@) {
                lemma_first_added(items);
                assert forall|i: int, n: Seq<char>|
                    0 <= i < items.len() implies (model_name(items[i]) == Some(n)
                    <==> element_names(#[trigger] items[i], n) && #[trigger] n.len() > 0) && (
                model_name(items[i]) is None <==> names_nothing(items[i])) by {
                    lemma_element(items[i], n);
                }
                if wanted.len() > 0 {
                    let i = choose|i: int|
                        0 <= i < items.len() && model_name(#[trigger] items[i]) == Some(wanted[0])
                            && forall|j: int| 0 <= j < i ==> model_name(#[trigger] items[j]) is None;
                    assert(element_names(items[i], wanted[0]) && wanted[0].len() > 0);
                    assert forall|j: int| 0 <= j < i implies names_nothing(#[trigger] items[j]) by {
                        lemma_element(items[j], name);
                    }
                    assert(names_first(c, wanted[0]));
                    if names_first(c, name) {
                        let k = choose|k: int|
                            0 <= k < items.len() && element_names(#[trigger] items[k], name)
                                && forall|j: int| 0 <= j < k ==> names_nothing(#[trigger] items[j]);
                        lemma_element(items[k], name);
                        if i < k {
                            assert(names_nothing(items[i]));
                            lemma_element(items[i], name);
                        }
                        if k < i {
                            assert(model_name(items[k]) is None);
                        }
                    }
                } else if names_first(c, name) {
                    let k = choose|k: int|
                        0 <= k < items.len() && element_names(#[trigger] items[k], name) && forall|j: int|
                            0 <= j < k ==> names_nothing(#[trigger] items[j]);
                    lemma_element(items[k], name);
                    assert(model_name(items[k]) is None);
                }
            }
        },
    }
}

/// The models that a configuration gives are those that it names.
proof fn lemma_wanted_contains(c: Json, name: Seq<char>)
    ensures
        wanted_models(c).contains(name) <==> names_model(c, name),
{
    let main: Seq<Seq<char>> = match member_of(c, "model"@) {
        Some(Json::Str(s)) if trimmed(s).len() > 0 => seq![trimmed(s)],
        _ => Seq::empty(),
    };
    assert(main.contains(name) <==> name.len() > 0 && (member_of(c, "model"@) matches Some(
        Json::Str(s),
    ) && trimmed(s) == name)) by {
        if main.len() > 0 {
            assert(main[0] == main[0]);
        }
    }
    if let Some(Json::Array(items)) = member_of(c, "models"@) {
        lemma_names_added(main, items, name);
        if exists|i: int| 0 <= i < items.len() && model_name(#[trigger] items[i]) == Some(name) {
            let i = choose|i: int| 0 <= i < items.len() && model_name(#[trigger] items[i]) == Some(name);
            lemma_element(items[i], name);
        }
        if name.len() > 0 && exists|i: int|
            0 <= i < items.len() && element_names(#[trigger] items[i], name) {
            let i = choose|i: int| 0 <= i < items.len() && element_names(#[trigger] items[i], name);
            lemma_element(items[i], name);
        }
    }
}

} // verus!
