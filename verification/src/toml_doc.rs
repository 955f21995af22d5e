//! TOML documents: what a document of `toml_edit` holds, and what reads and edits make of it.

use vstd::prelude::*;

verus! {

#[verifier::external_type_specification]
#[verifier::external_body]
pub struct ExItem(toml_edit::Item);

#[verifier::external_type_specification]
#[verifier::external_body]
pub struct ExDocumentMut(toml_edit::DocumentMut);

/// What an item of a TOML document holds. A table, whether it is written with a header,
/// with dotted keys or inline, is the sequence of its entries.
#[verifier::ext_equal]
pub enum Toml {
    /// A string.
    Str(Seq<char>),
    /// An integer.
    Integer(int),
    /// A number with a fraction or an exponent, infinite or none: the bits of it.
    Float(u64),
    /// A truth value.
    Bool(bool),
    /// A date, a time or both, written out.
    Date(Seq<char>),
    /// An array of values.
    Array(Seq<Toml>),
    /// A table: its entries, in order.
    Table(Seq<(Seq<char>, Toml)>),
    /// A list of tables, each with a header.
    Tables(Seq<Toml>),
    /// An empty slot, or an item that neither the parser nor the edits of the settings make:
    /// one whose surrounding text is more than white space and comments, whose written form
    /// stands for another value or is none that the parser takes, that holds a table with a
    /// header inside an inline table, or that is a string without a written form in which a
    /// quote stands too often in a row.
    Irregular,
}

/// The entries of a table, in order.
pub type Entries = Seq<(Seq<char>, Toml)>;

/// No key occurs twice.
pub open spec fn distinct(s: Entries) -> bool {
    forall|i: int, j: int| 0 <= i < j < s.len() ==> s[i].0 != s[j].0
}

/// Every part is regular, and no table has a key twice.
pub open spec fn regular(t: Toml) -> bool
    decreases t,
{
    match t {
        Toml::Irregular => false,
        Toml::Table(s) => distinct(s) && forall|i: int|
            0 <= i < s.len() ==> regular(#[trigger] s[i].1),
        Toml::Array(s) => forall|i: int| 0 <= i < s.len() ==> regular(#[trigger] s[i]),
        Toml::Tables(s) => forall|i: int| 0 <= i < s.len() ==> regular(#[trigger] s[i]),
        _ => true,
    }
}

/// A string, or a table of strings.
pub open spec fn plain(t: Toml) -> bool {
    match t {
        Toml::Str(_) => true,
        Toml::Table(s) => distinct(s) && forall|i: int|
            0 <= i < s.len() ==> (#[trigger] s[i]).1 is Str,
        _ => false,
    }
}

/// What stands under `key`.
pub open spec fn find(s: Entries, key: Seq<char>) -> Option<Toml>
    decreases s.len(),
{
    if s.len() == 0 {
        None
    } else if s.last().0 == key {
        Some(s.last().1)
    } else {
        find(s.drop_last(), key)
    }
}

/// Whether there is an entry under `key`.
pub open spec fn has_key(s: Entries, key: Seq<char>) -> bool {
    find(s, key) is Some
}

/// An entry, with `value` in the place of what stands under `key`.
pub open spec fn replacing(key: Seq<char>, value: Toml) -> spec_fn((Seq<char>, Toml)) -> (
    Seq<char>,
    Toml,
) {
    |e: (Seq<char>, Toml)|
        if e.0 == key {
            (key, value)
        } else {
            e
        }
}

/// Whether an entry stands under another key than `key`.
pub open spec fn other_than(key: Seq<char>) -> spec_fn((Seq<char>, Toml)) -> bool {
    |e: (Seq<char>, Toml)| e.0 != key
}

/// The entries with `value` under `key`: in the place of what stands there, or at the end.
pub open spec fn put(s: Entries, key: Seq<char>, value: Toml) -> Entries {
    if has_key(s, key) {
        s.map_values(replacing(key, value))
    } else {
        s.push((key, value))
    }
}

/// The entries without the one under `key`.
pub open spec fn without(s: Entries, key: Seq<char>) -> Entries {
    s.filter(other_than(key))
}

/// The string that an item is.
pub open spec fn string_of(t: Option<Toml>) -> Option<Seq<char>> {
    match t {
        Some(Toml::Str(s)) => Some(s),
        _ => None,
    }
}

/// The entries of the table that an item is.
pub open spec fn table_of(t: Option<Toml>) -> Option<Entries> {
    match t {
        Some(Toml::Table(s)) => Some(s),
        _ => None,
    }
}

/// The string under `key`.
pub open spec fn string_in(s: Entries, key: Seq<char>) -> Option<Seq<char>> {
    string_of(find(s, key))
}

/// The entries of the table under `key`.
pub open spec fn table_in(s: Entries, key: Seq<char>) -> Option<Entries> {
    table_of(find(s, key))
}

/// What `path` leads to, key by key through tables.
pub open spec fn item_at(s: Entries, path: Seq<Seq<char>>) -> Option<Toml>
    decreases path.len(),
{
    if path.len() == 0 {
        None
    } else if path.len() == 1 {
        find(s, path[0])
    } else {
        match table_in(s, path[0]) {
            Some(t) => item_at(t, path.drop_first()),
            None => None,
        }
    }
}

/// The value that an item is: a table and a list of tables are none.
pub open spec fn value_of(t: Option<Toml>) -> Option<Toml> {
    match t {
        Some(Toml::Table(_)) | Some(Toml::Tables(_)) | Some(Toml::Irregular) => None,
        _ => t,
    }
}

/// The value that `path` leads to.
pub open spec fn value_at(s: Entries, path: Seq<Seq<char>>) -> Option<Toml> {
    value_of(item_at(s, path))
}

/// Two items are both tables, both lists of tables, or both something else.
pub open spec fn same_kind(a: Toml, b: Toml) -> bool {
    (a is Table) == (b is Table) && (a is Tables) == (b is Tables)
}

/// A table of providers or of models that is empty: where it has no header of its own, it
/// does not show in the text.
pub open spec fn may_vanish(path: Seq<Seq<char>>, t: Toml) -> bool {
    &&& path.len() == 1
    &&& path[0] == "providers"@ || path[0] == "models"@
    &&& t == Toml::Table(Seq::empty())
}

/// The two hold the same: the same values under the same keys, and tables and lists of tables
/// under the same keys, but for a table in `tree` that may vanish. The order of entries is not
/// compared, nor what the tables in a list hold.
pub open spec fn holds_same(again: Entries, tree: Entries) -> bool {
    &&& forall|path: Seq<Seq<char>>| #[trigger] value_at(again, path) == value_at(tree, path)
    &&& forall|path: Seq<Seq<char>>|
        (#[trigger] item_at(again, path)) matches Some(a) ==> item_at(tree, path) matches Some(t)
            && same_kind(a, t)
    &&& forall|path: Seq<Seq<char>>|
        (#[trigger] item_at(tree, path)) matches Some(t) ==> may_vanish(path, t) || item_at(
            again,
            path,
        ) is Some
}

// ---------------------------------------------------------------------------
// Laws of entries
// ---------------------------------------------------------------------------

/// What an entry holds is found under its key, where keys are distinct.
pub proof fn lemma_find_at(s: Entries, i: int)
    requires
        distinct(s),
        0 <= i < s.len(),
    ensures
        find(s, s[i].0) == Some(s[i].1),
    decreases s.len(),
{
    if i < s.len() - 1 {
        assert(s[i].0 != s[s.len() - 1].0);
        lemma_find_at(s.drop_last(), i);
    }
}

/// What is found under a key stands in an entry.
pub proof fn lemma_find_somewhere(s: Entries, key: Seq<char>)
    ensures
        has_key(s, key) ==> exists|i: int| 0 <= i < s.len() && s[i] == (key, find(s, key)->0),
        !has_key(s, key) ==> forall|i: int| 0 <= i < s.len() ==> (#[trigger] s[i]).0 != key,
    decreases s.len(),
{
    if s.len() > 0 {
        if s.last().0 == key {
            assert(s[s.len() - 1] == (key, find(s, key)->0));
        } else {
            lemma_find_somewhere(s.drop_last(), key);
            if has_key(s, key) {
                let i = choose|i: int|
                    0 <= i < s.drop_last().len() && s.drop_last()[i] == (key, find(s, key)->0);
                assert(s[i] == (key, find(s, key)->0));
            } else {
                assert forall|i: int| 0 <= i < s.len() implies (#[trigger] s[i]).0 != key by {
                    if i < s.len() - 1 {
                        assert(s.drop_last()[i] == s[i]);
                    }
                }
            }
        }
    }
}

/// Replacing the value under every occurrence of `key` shows at `key` alone.
proof fn lemma_find_replaced(s: Entries, key: Seq<char>, value: Toml, other: Seq<char>)
    ensures
        find(s.map_values(replacing(key, value)), other) == if other == key && has_key(s, key) {
            Some(value)
        } else {
            find(s, other)
        },
    decreases s.len(),
{
    let f = replacing(key, value);
    if s.len() > 0 {
        lemma_find_replaced(s.drop_last(), key, value, other);
        assert(s.map_values(f).drop_last() =~= s.drop_last().map_values(f));
    }
}

/// After `put`, `key` holds the value, and every other key what it held.
pub proof fn lemma_find_put(s: Entries, key: Seq<char>, value: Toml, other: Seq<char>)
    ensures
        find(put(s, key, value), other) == if other == key {
            Some(value)
        } else {
            find(s, other)
        },
{
    if has_key(s, key) {
        lemma_find_replaced(s, key, value, other);
    } else {
        assert(s.push((key, value)).drop_last() =~= s);
    }
}

/// After `without`, `key` holds nothing, and every other key what it held.
pub proof fn lemma_find_without(s: Entries, key: Seq<char>, other: Seq<char>)
    ensures
        find(without(s, key), other) == if other == key {
            None
        } else {
            find(s, other)
        },
    decreases s.len(),
{
    reveal(Seq::filter);
    if s.len() > 0 {
        lemma_find_without(s.drop_last(), key, other);
        let f = other_than(key);
        if s.last().0 != key {
            assert(s.filter(f) == s.drop_last().filter(f).push(s.last()));
            assert(s.filter(f).drop_last() =~= s.drop_last().filter(f));
        }
    }
}

/// The last of two values put under one key is the one that stays.
pub proof fn lemma_put_put(s: Entries, key: Seq<char>, a: Toml, b: Toml)
    ensures
        put(put(s, key, a), key, b) == put(s, key, b),
{
    lemma_find_put(s, key, a, key);
    lemma_find_somewhere(s, key);
    assert(put(put(s, key, a), key, b) =~= put(s, key, b));
}

/// Putting back what stands under a key changes nothing.
pub proof fn lemma_put_same(s: Entries, key: Seq<char>)
    requires
        distinct(s),
        has_key(s, key),
    ensures
        put(s, key, find(s, key)->0) == s,
{
    let v = find(s, key)->0;
    assert forall|i: int| 0 <= i < s.len() implies #[trigger] put(s, key, v)[i] == s[i] by {
        lemma_find_at(s, i);
    }
    assert(put(s, key, v) =~= s);
}

/// `put` keeps a table regular.
pub proof fn lemma_put_regular(s: Entries, key: Seq<char>, value: Toml)
    requires
        regular(Toml::Table(s)),
        regular(value),
    ensures
        regular(Toml::Table(put(s, key, value))),
{
    let t = put(s, key, value);
    lemma_find_somewhere(s, key);
    assert(distinct(t)) by {
        assert forall|i: int, j: int| 0 <= i < j < t.len() implies t[i].0 != t[j].0 by {
            if has_key(s, key) {
                assert(s[i].0 != s[j].0);
            } else if j < s.len() {
                assert(s[i].0 != s[j].0);
            } else {
                assert(s[i].0 != key);
            }
        }
    }
    assert forall|i: int| 0 <= i < t.len() implies regular(#[trigger] t[i].1) by {
        if i < s.len() {
            assert(regular(s[i].1));
        }
    }
}

/// A part of the entries, in their order, stays regular.
pub proof fn lemma_filter_regular(s: Entries, keep: spec_fn((Seq<char>, Toml)) -> bool)
    requires
        regular(Toml::Table(s)),
    ensures
        regular(Toml::Table(s.filter(keep))),
        forall|i: int|
            0 <= i < s.filter(keep).len() ==> exists|j: int|
                0 <= j < s.len() && s[j] == #[trigger] s.filter(keep)[i],
    decreases s.len(),
{
    reveal(Seq::filter);
    if s.len() > 0 {
        let front = s.drop_last();
        assert(regular(Toml::Table(front))) by {
            assert forall|i: int| 0 <= i < front.len() implies regular(#[trigger] front[i].1) by {
                assert(regular(s[i].1));
            }
        }
        lemma_filter_regular(front, keep);
        let f = front.filter(keep);
        let t = s.filter(keep);
        assert forall|i: int| 0 <= i < t.len() implies exists|j: int|
            0 <= j < s.len() && s[j] == #[trigger] t[i] by {
            if i < f.len() {
                let j = choose|j: int| 0 <= j < front.len() && front[j] == f[i];
                assert(s[j] == t[i]);
            } else {
                assert(s[s.len() - 1] == t[i]);
            }
        }
        if keep(s.last()) {
            assert forall|i: int, j: int| 0 <= i < j < t.len() implies t[i].0 != t[j].0 by {
                if j == f.len() {
                    let k = choose|k: int| 0 <= k < front.len() && front[k] == f[i];
                    assert(s[k].0 != s[s.len() - 1].0);
                } else {
                    assert(f[i].0 != f[j].0);
                }
            }
            assert forall|i: int| 0 <= i < t.len() implies regular(#[trigger] t[i].1) by {
                if i < f.len() {
                    assert(regular(f[i].1));
                } else {
                    assert(regular(s[s.len() - 1].1));
                }
            }
        }
    }
}

/// What stands in a regular table is regular.
pub proof fn lemma_find_regular(s: Entries, key: Seq<char>)
    requires
        regular(Toml::Table(s)),
        has_key(s, key),
    ensures
        regular(find(s, key)->0),
{
    lemma_find_somewhere(s, key);
    let i = choose|i: int| 0 <= i < s.len() && s[i] == (key, find(s, key)->0);
    assert(regular(s[i].1));
}

/// A plain item is regular.
pub proof fn lemma_plain_regular(t: Toml)
    requires
        plain(t),
    ensures
        regular(t),
{
    if let Toml::Table(s) = t {
        assert forall|i: int| 0 <= i < s.len() implies regular(#[trigger] s[i].1) by {
            assert(s[i].1 is Str);
        }
    }
}

/// A table of strings stays one when a string is put into it.
pub proof fn lemma_plain_put(s: Entries, key: Seq<char>, text: Seq<char>)
    requires
        plain(Toml::Table(s)),
    ensures
        plain(Toml::Table(put(s, key, Toml::Str(text)))),
{
    lemma_plain_regular(Toml::Table(s));
    lemma_put_regular(s, key, Toml::Str(text));
    let t = put(s, key, Toml::Str(text));
    assert forall|i: int| 0 <= i < t.len() implies (#[trigger] t[i]).1 is Str by {
        if i < s.len() {
            assert(s[i].1 is Str);
        }
    }
}

} // verus!
