//! The laws the store obeys, stated and proved over the map model that the
//! public contracts speak of.

use vstd::prelude::*;

use crate::custom::Custom;
use crate::flat::FlatMetadata;
use crate::flat::pairs_of;
use crate::model::Pair;
use crate::model::lemma_map_of_contains;
use crate::model::lemma_map_of_index;
use crate::model::lemma_map_of_len;
use crate::model::map_of;
use crate::model::unique_keys;

verus! {

/// A store built from pairs with pairwise-distinct keys holds exactly those
/// pairs: its count is the number of pairs, each key maps to its own value,
/// and no other key is present.
pub proof fn lemma_store_of_unique_pairs(ps: Seq<Pair>)
    requires
        unique_keys(ps),
    ensures
        map_of(ps).dom().len() == ps.len(),
        forall|i: int|
            0 <= i < ps.len() ==> map_of(ps).contains_key(ps[i].0) && map_of(ps)[ps[i].0]
                == ps[i].1,
        forall|k: Seq<char>|
            map_of(ps).contains_key(k) ==> exists|i: int| 0 <= i < ps.len() && ps[i].0 == k,
{
    lemma_map_of_len(ps);
    assert forall|i: int|
        0 <= i < ps.len() implies map_of(ps).contains_key(ps[i].0) && map_of(ps)[ps[i].0]
            == ps[i].1 by {
        lemma_map_of_index(ps, i);
    }
    assert forall|k: Seq<char>| map_of(ps).contains_key(k) implies exists|i: int|
        0 <= i < ps.len() && ps[i].0 == k by {
        lemma_map_of_contains(ps, k);
    }
}

/// Overwriting: inserting a fresh key and then inserting it again reports the
/// key as new the first time and as present the second, leaves the count
/// unchanged by the second insert, and leaves the key at the later value.
pub proof fn lemma_insert_overwrite(
    m: Map<Seq<char>, Seq<char>>,
    k: Seq<char>,
    v1: Seq<char>,
    v2: Seq<char>,
)
    requires
        m.dom().finite(),
        !m.contains_key(k),
    ensures
        m.insert(k, v1).contains_key(k),
        m.insert(k, v1).insert(k, v2) == m.insert(k, v2),
        m.insert(k, v1).insert(k, v2).dom().len() == m.insert(k, v1).dom().len(),
        m.insert(k, v1).insert(k, v2)[k] == v2,
{
    assert(m.insert(k, v1).insert(k, v2) =~= m.insert(k, v2));
    assert(m.insert(k, v1).insert(k, v2).dom() =~= m.insert(k, v1).dom());
}

/// Deletion: removing a present key drops the count by one and leaves the
/// key absent; removing an absent key changes nothing.
pub proof fn lemma_delete_correct(m: Map<Seq<char>, Seq<char>>, k: Seq<char>)
    requires
        m.dom().finite(),
    ensures
        !m.remove(k).contains_key(k),
        m.contains_key(k) ==> m.remove(k).dom().len() == m.dom().len() - 1,
        !m.contains_key(k) ==> m.remove(k) == m,
{
    if m.contains_key(k) {
        m.lemma_remove_key_len(k);
    } else {
        assert(m.remove(k) =~= m);
    }
}

/// Cache behaviour: two consecutive exports with no intervening mutation
/// return the same records.  The first export leaves its records as the live
/// cache (`s` is the store as the first export left it), and an export under
/// a live cache serves the cached records without a rebuild.
pub proof fn lemma_consecutive_exports_identical(s: Custom, r1: FlatMetadata, r2: FlatMetadata)
    requires
        s.cache_records() == Some(r1.entries@),
        s.cache_records() matches Some(c) ==> r2.entries@ == c,
    ensures
        r2.entries@ == r1.entries@,
{
}

/// Round trip: a store's exported records, imported into a new store,
/// reproduce the content exactly.  The export carries the source's records
/// and the import holds the map those records denote, so the two stores hold
/// the same (key, value) pairs whatever order either was built in.
pub proof fn lemma_export_import_round_trip(s: Custom, f: FlatMetadata, t: Custom)
    requires
        f.entries@ == s.records(),
        t@ == f@,
    ensures
        t@ == s@,
{
}

} // verus!
