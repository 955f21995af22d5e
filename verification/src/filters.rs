//! What a filter keeps of a sequence.

use vstd::prelude::*;

verus! {

/// A filtered sequence grows with the sequence.
pub proof fn lemma_filter_step<A>(s: Seq<A>, keep: spec_fn(A) -> bool, i: int)
    requires
        0 <= i < s.len(),
    ensures
        s.take(i + 1).filter(keep) == if keep(s[i]) {
            s.take(i).filter(keep).push(s[i])
        } else {
            s.take(i).filter(keep)
        },
{
    reveal(Seq::filter);
    assert(s.take(i + 1).drop_last() =~= s.take(i));
    assert(s.take(i + 1).last() == s[i]);
}

/// The entries kept of a sequence are entries of it.
pub proof fn lemma_filter_source<A>(s: Seq<A>, keep: spec_fn(A) -> bool)
    ensures
        forall|i: int|
            0 <= i < s.filter(keep).len() ==> exists|j: int|
                0 <= j < s.len() && s[j] == #[trigger] s.filter(keep)[i],
        forall|i: int| 0 <= i < s.filter(keep).len() ==> keep(#[trigger] s.filter(keep)[i]),
    decreases s.len(),
{
    reveal(Seq::filter);
    if s.len() > 0 {
        lemma_filter_source(s.drop_last(), keep);
        let f = s.drop_last().filter(keep);
        assert forall|i: int| 0 <= i < s.filter(keep).len() implies exists|j: int|
            0 <= j < s.len() && s[j] == #[trigger] s.filter(keep)[i] by {
            if i < f.len() {
                let j = choose|j: int| 0 <= j < s.drop_last().len() && s.drop_last()[j] == f[i];
                assert(s[j] == s.filter(keep)[i]);
            } else {
                assert(s[s.len() - 1] == s.filter(keep)[i]);
            }
        }
    }
}

/// An entry that a filter keeps is among those kept.
pub proof fn lemma_filter_keeps<A>(s: Seq<A>, keep: spec_fn(A) -> bool, i: int) -> (k: int)
    requires
        0 <= i < s.len(),
        keep(s[i]),
    ensures
        0 <= k < s.filter(keep).len(),
        s.filter(keep)[k] == s[i],
    decreases s.len(),
{
    reveal(Seq::filter);
    if i == s.len() - 1 {
        s.filter(keep).len() - 1
    } else {
        lemma_filter_keeps(s.drop_last(), keep, i)
    }
}

/// Where the entries that a filter keeps stand: in the order in which they are kept.
pub proof fn lemma_filter_positions<A>(s: Seq<A>, keep: spec_fn(A) -> bool) -> (places: Seq<int>)
    ensures
        places.len() == s.filter(keep).len(),
        forall|k: int|
            0 <= k < places.len() ==> 0 <= #[trigger] places[k] < s.len() && keep(s[places[k]])
                && s.filter(keep)[k] == s[places[k]],
        forall|k: int, l: int|
            0 <= k < l < places.len() ==> #[trigger] places[k] < #[trigger] places[l],
        forall|i: int|
            0 <= i < s.len() && keep(#[trigger] s[i]) ==> exists|k: int|
                0 <= k < places.len() && places[k] == i,
    decreases s.len(),
{
    reveal(Seq::filter);
    if s.len() == 0 {
        Seq::empty()
    } else {
        let front = s.drop_last();
        let before = lemma_filter_positions(front, keep);
        let last = s.len() - 1;
        let places = if keep(s.last()) {
            before.push(last)
        } else {
            before
        };
        assert forall|k: int| 0 <= k < places.len() implies 0 <= #[trigger] places[k] < s.len()
            && keep(s[places[k]]) && s.filter(keep)[k] == s[places[k]] by {
            if k < before.len() {
                assert(places[k] == before[k]);
                assert(front[before[k]] == s[before[k]]);
            }
        }
        assert forall|i: int| 0 <= i < s.len() && keep(#[trigger] s[i]) implies exists|k: int|
            0 <= k < places.len() && places[k] == i by {
            if i < last {
                assert(front[i] == s[i]);
                let k = choose|k: int| 0 <= k < before.len() && before[k] == i;
                assert(places[k] == i);
            } else {
                assert(places[before.len() as int] == i);
            }
        }
        places
    }
}

/// Two filters that agree on every entry keep the same.
pub proof fn lemma_same_filter<A>(s: Seq<A>, f: spec_fn(A) -> bool, g: spec_fn(A) -> bool)
    requires
        forall|i: int| 0 <= i < s.len() ==> f(#[trigger] s[i]) == g(s[i]),
    ensures
        s.filter(f) == s.filter(g),
    decreases s.len(),
{
    reveal(Seq::filter);
    if s.len() > 0 {
        assert forall|i: int| 0 <= i < s.drop_last().len() implies f(#[trigger] s.drop_last()[i])
            == g(s.drop_last()[i]) by {
            assert(f(s[i]) == g(s[i]));
        }
        lemma_same_filter(s.drop_last(), f, g);
        assert(f(s[s.len() - 1]) == g(s[s.len() - 1]));
    }
}

/// A filter that keeps every entry changes nothing.
pub proof fn lemma_full_filter<A>(s: Seq<A>, f: spec_fn(A) -> bool)
    requires
        forall|i: int| 0 <= i < s.len() ==> f(#[trigger] s[i]),
    ensures
        s.filter(f) == s,
    decreases s.len(),
{
    reveal(Seq::filter);
    if s.len() > 0 {
        assert forall|i: int| 0 <= i < s.drop_last().len() implies f(
            #[trigger] s.drop_last()[i],
        ) by {
            assert(f(s[i]));
        }
        lemma_full_filter(s.drop_last(), f);
        assert(f(s[s.len() - 1]));
        assert(s =~= s.drop_last().push(s.last()));
    }
}

} // verus!
