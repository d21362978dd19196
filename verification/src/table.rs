//! Tables that are kept as lists of pairs, and the search for a key that is
//! still free in one.

use vstd::prelude::*;

verus! {

/// The table that a list of pairs stands for: each key is bound to the value
/// that stands beside its last occurrence.
pub open spec fn bindings<K, V>(pairs: Seq<(K, V)>) -> Map<K, V>
    decreases pairs.len(),
{
    if pairs.len() == 0 {
        Map::empty()
    } else {
        bindings(pairs.drop_last()).insert(pairs.last().0, pairs.last().1)
    }
}

/// Whether `key` stands nowhere in `pairs` behind the place `at`.
pub open spec fn last_at<K, V>(pairs: Seq<(K, V)>, key: K, at: int) -> bool {
    forall|j: int| at < j < pairs.len() ==> (#[trigger] pairs[j]).0 != key
}

/// A table binds exactly the keys that stand in its list, each to the value
/// beside its last occurrence, and there are finitely many of them.
pub proof fn lemma_bindings<K, V>(pairs: Seq<(K, V)>)
    ensures
        bindings(pairs).dom().finite(),
        forall|key: K| #[trigger]
            bindings(pairs).contains_key(key) <==> exists|i: int|
                0 <= i < pairs.len() && (#[trigger] pairs[i]).0 == key,
        forall|i: int|
            0 <= i < pairs.len() && last_at(pairs, (#[trigger] pairs[i]).0, i) ==> bindings(
                pairs,
            )[pairs[i].0] == pairs[i].1,
    decreases pairs.len(),
{
    if pairs.len() > 0 {
        let earlier = pairs.drop_last();
        lemma_bindings(earlier);
        assert forall|key: K| #[trigger] bindings(pairs).contains_key(key) implies exists|i: int|
            0 <= i < pairs.len() && (#[trigger] pairs[i]).0 == key by {
            if key == pairs.last().0 {
                assert(pairs[pairs.len() - 1].0 == key);
            } else {
                let i = choose|i: int| 0 <= i < earlier.len() && (#[trigger] earlier[i]).0 == key;
                assert(pairs[i].0 == key);
            }
        }
        assert forall|key: K|
            (exists|i: int| 0 <= i < pairs.len() && (#[trigger] pairs[i]).0 == key) implies #[trigger]
            bindings(pairs).contains_key(key) by {
            let i = choose|i: int| 0 <= i < pairs.len() && (#[trigger] pairs[i]).0 == key;
            if i < pairs.len() - 1 {
                assert(earlier[i].0 == key);
            }
        }
        assert forall|i: int|
            0 <= i < pairs.len() && last_at(pairs, (#[trigger] pairs[i]).0, i) implies bindings(
            pairs,
        )[pairs[i].0] == pairs[i].1 by {
            if i < pairs.len() - 1 {
                assert(earlier[i] == pairs[i]);
                assert(pairs[pairs.len() - 1].0 != pairs[i].0);
                assert forall|j: int| i < j < earlier.len() implies (#[trigger] earlier[j]).0
                    != earlier[i].0 by {
                    assert(pairs[j].0 != pairs[i].0);
                }
            }
        }
    }
}

/// Replacing the value at the last occurrence of a key rebinds that key and
/// no other.
pub proof fn lemma_bindings_replace<K, V>(pairs: Seq<(K, V)>, at: int, value: V)
    requires
        0 <= at < pairs.len(),
        last_at(pairs, pairs[at].0, at),
    ensures
        bindings(pairs.update(at, (pairs[at].0, value))) == bindings(pairs).insert(
            pairs[at].0,
            value,
        ),
    decreases pairs.len(),
{
    let after = pairs.update(at, (pairs[at].0, value));
    if at == pairs.len() - 1 {
        assert(after.drop_last() =~= pairs.drop_last());
        assert(bindings(after) =~= bindings(pairs).insert(pairs[at].0, value));
    } else {
        let earlier = pairs.drop_last();
        assert(after.drop_last() =~= earlier.update(at, (pairs[at].0, value)));
        assert(earlier[at] == pairs[at]);
        assert forall|j: int| at < j < earlier.len() implies (#[trigger] earlier[j]).0
            != earlier[at].0 by {
            assert(pairs[j].0 != pairs[at].0);
        }
        lemma_bindings_replace(earlier, at, value);
        assert(pairs[pairs.len() - 1].0 != pairs[at].0);
        assert(bindings(after) =~= bindings(pairs).insert(pairs[at].0, value));
    }
}

/// The place of the first of `candidates` that is not among `taken`.
pub open spec fn first_free_at<K>(taken: Set<K>, candidates: Seq<K>) -> Option<int>
    decreases candidates.len(),
{
    if candidates.len() == 0 {
        None
    } else {
        match first_free_at(taken, candidates.drop_last()) {
            Some(at) => Some(at),
            None => if taken.contains(candidates.last()) {
                None
            } else {
                Some(candidates.len() - 1)
            },
        }
    }
}

/// The first of `candidates` that is not among `taken`: a candidate is passed
/// over exactly if it is taken.
pub open spec fn first_free<K>(taken: Set<K>, candidates: Seq<K>) -> Option<K> {
    match first_free_at(taken, candidates) {
        Some(at) => Some(candidates[at]),
        None => None,
    }
}

/// The first free candidate is free and all before it are taken; where there
/// is none, every candidate is taken.
pub proof fn lemma_first_free<K>(taken: Set<K>, candidates: Seq<K>)
    ensures
        match first_free_at(taken, candidates) {
            Some(at) => {
                &&& 0 <= at < candidates.len()
                &&& !taken.contains(candidates[at])
                &&& forall|j: int| 0 <= j < at ==> taken.contains(#[trigger] candidates[j])
            },
            None => forall|j: int|
                0 <= j < candidates.len() ==> taken.contains(#[trigger] candidates[j]),
        },
    decreases candidates.len(),
{
    if candidates.len() > 0 {
        let earlier = candidates.drop_last();
        lemma_first_free(taken, earlier);
        match first_free_at(taken, earlier) {
            Some(at) => {
                assert forall|j: int| 0 <= j < at implies taken.contains(
                    #[trigger] candidates[j],
                ) by {
                    assert(earlier[j] == candidates[j]);
                }
            },
            None => {
                assert forall|j: int| 0 <= j < earlier.len() implies taken.contains(
                    #[trigger] candidates[j],
                ) by {
                    assert(earlier[j] == candidates[j]);
                }
            },
        }
    }
}

/// A free candidate before which all are taken is the first free one.
pub proof fn lemma_first_free_is<K>(taken: Set<K>, candidates: Seq<K>, at: int)
    requires
        0 <= at < candidates.len(),
        !taken.contains(candidates[at]),
        forall|j: int| 0 <= j < at ==> taken.contains(#[trigger] candidates[j]),
    ensures
        first_free_at(taken, candidates) == Some(at),
{
    lemma_first_free(taken, candidates);
}

} // verus!
