//! The mathematical model of a metadata store: an ordered list of key/value
//! pairs (each a sequence of characters) and the finite map it denotes.

use vstd::prelude::*;

verus! {

/// A key/value pair at the specification level.
pub type Pair = (Seq<char>, Seq<char>);

/// The keys of a pair list are pairwise distinct.
pub open spec fn unique_keys(ps: Seq<Pair>) -> bool {
    forall|i: int, j: int| 0 <= i < j < ps.len() ==> ps[i].0 != ps[j].0
}

/// The mapping a pair list denotes.  When a key occurs more than once, the
/// later pair wins, matching the effect of inserting the pairs in order.
pub open spec fn map_of(ps: Seq<Pair>) -> Map<Seq<char>, Seq<char>>
    decreases ps.len(),
{
    if ps.len() == 0 {
        Map::empty()
    } else {
        map_of(ps.drop_last()).insert(ps.last().0, ps.last().1)
    }
}

pub proof fn lemma_map_of_finite(ps: Seq<Pair>)
    ensures
        map_of(ps).dom().finite(),
    decreases ps.len(),
{
    if ps.len() > 0 {
        lemma_map_of_finite(ps.drop_last());
    }
}

/// A key is in the map exactly when some pair carries it.
pub proof fn lemma_map_of_contains(ps: Seq<Pair>, k: Seq<char>)
    ensures
        map_of(ps).contains_key(k) <==> exists|i: int| 0 <= i < ps.len() && ps[i].0 == k,
    decreases ps.len(),
{
    if ps.len() > 0 {
        lemma_map_of_contains(ps.drop_last(), k);
        if ps.last().0 == k {
            assert(ps[ps.len() - 1].0 == k);
        } else {
            if exists|i: int| 0 <= i < ps.len() && ps[i].0 == k {
                let i = choose|i: int| 0 <= i < ps.len() && ps[i].0 == k;
                assert(ps.drop_last()[i].0 == k);
            }
        }
    }
}

/// No pair carries the key, so the map lacks it.
pub proof fn lemma_map_of_absent(ps: Seq<Pair>, k: Seq<char>)
    requires
        forall|i: int| 0 <= i < ps.len() ==> ps[i].0 != k,
    ensures
        !map_of(ps).contains_key(k),
{
    lemma_map_of_contains(ps, k);
    if map_of(ps).contains_key(k) {
        let i = choose|i: int| 0 <= i < ps.len() && ps[i].0 == k;
        assert(false);
    }
}

/// With distinct keys, each pair's key maps to that pair's value.
pub proof fn lemma_map_of_index(ps: Seq<Pair>, i: int)
    requires
        unique_keys(ps),
        0 <= i < ps.len(),
    ensures
        map_of(ps).contains_key(ps[i].0),
        map_of(ps)[ps[i].0] == ps[i].1,
    decreases ps.len(),
{
    if i < ps.len() - 1 {
        assert(unique_keys(ps.drop_last()));
        lemma_map_of_index(ps.drop_last(), i);
        assert(ps[i].0 != ps.last().0);
    }
}

/// With distinct keys, the map has exactly one entry per pair.
pub proof fn lemma_map_of_len(ps: Seq<Pair>)
    requires
        unique_keys(ps),
    ensures
        map_of(ps).dom().len() == ps.len(),
    decreases ps.len(),
{
    if ps.len() == 0 {
        assert(map_of(ps).dom() =~= Set::<Seq<char>>::empty());
    } else {
        let prefix = ps.drop_last();
        assert(unique_keys(prefix));
        lemma_map_of_len(prefix);
        lemma_map_of_finite(prefix);
        assert(forall|i: int| 0 <= i < prefix.len() ==> prefix[i].0 != ps.last().0);
        lemma_map_of_absent(prefix, ps.last().0);
        assert(map_of(ps).dom() =~= map_of(prefix).dom().insert(ps.last().0));
    }
}

/// Appending a pair inserts it into the map.
pub proof fn lemma_map_of_push(ps: Seq<Pair>, p: Pair)
    ensures
        map_of(ps.push(p)) == map_of(ps).insert(p.0, p.1),
{
    assert(ps.push(p).drop_last() =~= ps);
    assert(ps.push(p).last() == p);
}

/// Replacing the pair that carries a key re-inserts that key into the map.
pub proof fn lemma_map_of_update(ps: Seq<Pair>, i: int, p: Pair)
    requires
        unique_keys(ps),
        0 <= i < ps.len(),
        p.0 == ps[i].0,
    ensures
        map_of(ps.update(i, p)) == map_of(ps).insert(p.0, p.1),
    decreases ps.len(),
{
    let t = ps.update(i, p);
    if i == ps.len() - 1 {
        assert(t.drop_last() =~= ps.drop_last());
        assert(t.last() == p);
        assert(map_of(ps).insert(p.0, p.1) =~= map_of(ps.drop_last()).insert(p.0, p.1));
    } else {
        assert(unique_keys(ps.drop_last()));
        lemma_map_of_update(ps.drop_last(), i, p);
        assert(t.drop_last() =~= ps.drop_last().update(i, p));
        assert(t.last() == ps.last());
        assert(p.0 != ps.last().0);
        assert(map_of(t) =~= map_of(ps).insert(p.0, p.1));
    }
}

/// Appending a pair with a fresh key keeps the keys distinct.
pub proof fn lemma_unique_push(ps: Seq<Pair>, p: Pair)
    requires
        unique_keys(ps),
        forall|i: int| 0 <= i < ps.len() ==> ps[i].0 != p.0,
    ensures
        unique_keys(ps.push(p)),
{
}

/// Replacing a pair by one with the same key keeps the keys distinct.
pub proof fn lemma_unique_update(ps: Seq<Pair>, i: int, p: Pair)
    requires
        unique_keys(ps),
        0 <= i < ps.len(),
        p.0 == ps[i].0,
    ensures
        unique_keys(ps.update(i, p)),
{
}

/// Removing a pair keeps the keys distinct.
pub proof fn lemma_unique_remove(ps: Seq<Pair>, i: int)
    requires
        unique_keys(ps),
        0 <= i < ps.len(),
    ensures
        unique_keys(ps.remove(i)),
{
    let t = ps.remove(i);
    assert forall|a: int, b: int| 0 <= a < b < t.len() implies t[a].0 != t[b].0 by {
        let a2: int = if a < i { a } else { a + 1 };
        let b2: int = if b < i { b } else { b + 1 };
        assert(t[a] == ps[a2]);
        assert(t[b] == ps[b2]);
    }
}

/// Removing the pair that carries a key removes that key from the map.
pub proof fn lemma_map_of_remove(ps: Seq<Pair>, i: int)
    requires
        unique_keys(ps),
        0 <= i < ps.len(),
    ensures
        map_of(ps.remove(i)) == map_of(ps).remove(ps[i].0),
    decreases ps.len(),
{
    let t = ps.remove(i);
    if i == ps.len() - 1 {
        assert(t =~= ps.drop_last());
        assert(forall|j: int| 0 <= j < ps.drop_last().len() ==> ps.drop_last()[j].0 != ps[i].0);
        lemma_map_of_absent(ps.drop_last(), ps[i].0);
        assert(map_of(ps).remove(ps[i].0) =~= map_of(ps.drop_last()));
    } else {
        assert(unique_keys(ps.drop_last()));
        lemma_map_of_remove(ps.drop_last(), i);
        assert(t.drop_last() =~= ps.drop_last().remove(i));
        assert(t.last() == ps.last());
        assert(ps[i].0 != ps.last().0);
        assert(map_of(t) =~= map_of(ps).remove(ps[i].0));
    }
}

} // verus!
