//! The owned custom-metadata store: unique UTF-8 keys mapped to UTF-8
//! values, with a lazily built export cache that every mutation discards.

use vstd::prelude::*;
use vstd::pervasive::VecAdditionalExecFns;

use crate::flat::Entry;
use crate::flat::FlatMetadata;
use crate::flat::lemma_pairs_of_push;
use crate::flat::lemma_pairs_of_remove;
use crate::flat::lemma_pairs_of_update;
use crate::flat::pairs_of;
use crate::model::Pair;
use crate::model::lemma_map_of_absent;
use crate::model::lemma_map_of_index;
use crate::model::lemma_map_of_len;
use crate::model::lemma_map_of_push;
use crate::model::lemma_map_of_remove;
use crate::model::lemma_map_of_update;
use crate::model::lemma_unique_push;
use crate::model::lemma_unique_remove;
use crate::model::lemma_unique_update;
use crate::model::map_of;
use crate::model::unique_keys;

verus! {

/// Reserved error of the import path.  Import is defined to succeed on every
/// trusted input today; the type exists so that validation can be added later
/// without changing the public signature.
#[derive(Clone, Copy, Debug)]
pub struct ImportError;

/// A container of custom information about a stored item, provided by the
/// application as key/value pairs of UTF-8 text.  Keys are unique, so only
/// one value is associated with each.
///
/// The store owns its entries exclusively, and owns an optional export
/// cache: the flat record list handed out by [`Custom::to_flat`], kept only
/// while the store is unmutated.
pub struct Custom {
    entries: Vec<Entry>,
    cache: Option<FlatMetadata>,
}

/// The pairs of character sequences a list of text pairs stands for.
pub open spec fn pair_views(s: Seq<(&str, &str)>) -> Seq<Pair> {
    s.map_values(|p: (&str, &str)| (p.0@, p.1@))
}

impl View for Custom {
    type V = Map<Seq<char>, Seq<char>>;

    /// The content of the store: the finite map from keys to values.
    open spec fn view(&self) -> Map<Seq<char>, Seq<char>> {
        map_of(pairs_of(self.records()))
    }
}

impl Custom {
    /// The records the store holds, one per key, in storage order.
    pub closed spec fn records(&self) -> Seq<Entry> {
        self.entries@
    }

    /// The record list carried by the live export cache, or `None` when no
    /// cache is live.
    pub closed spec fn cache_records(&self) -> Option<Seq<Entry>> {
        match self.cache {
            Some(f) => Some(f.entries@),
            None => None,
        }
    }

    /// Well-formed: no two records share a key, and a live cache carries
    /// exactly the current records.
    pub open spec fn wf(&self) -> bool {
        &&& unique_keys(pairs_of(self.records()))
        &&& match self.cache_records() {
            Some(rs) => rs == self.records(),
            None => true,
        }
    }

    /// Creates a store containing exactly the given pairs; when a key occurs
    /// twice, the later pair wins.  The cache starts absent.
    pub fn with_entries(entries: &[(&str, &str)]) -> (r: Custom)
        ensures
            r.wf(),
            r@ == map_of(pair_views(entries@)),
            r.cache_records() is None,
    {
        let mut r = Custom { entries: Vec::new(), cache: None };
        proof {
            assert(pairs_of(r.entries@) =~= Seq::<Pair>::empty());
            assert(pair_views(entries@.take(0)) =~= Seq::<Pair>::empty());
        }
        let n = entries.len();
        let mut i: usize = 0;
        while i < n
            invariant
                n == entries@.len(),
                i <= n,
                r.wf(),
                r.cache_records() is None,
                r@ == map_of(pair_views(entries@.take(i as int))),
            decreases n - i,
        {
            let p = entries[i];
            r.insert(p.0, p.1);
            proof {
                let prefix = entries@.take(i as int);
                assert(pair_views(prefix.push(entries@[i as int])) =~= pair_views(
                    prefix,
                ).push((p.0@, p.1@)));
                lemma_map_of_push(pair_views(prefix), (p.0@, p.1@));
                assert(entries@.take(i + 1) =~= prefix.push(entries@[i as int]));
            }
            i += 1;
        }
        proof {
            assert(entries@.take(n as int) =~= entries@);
        }
        r
    }

    /// The current number of entries, i.e. of unique keys.
    pub fn count(&self) -> (r: usize)
        requires
            self.wf(),
        ensures
            r == self@.dom().len(),
    {
        proof {
            lemma_map_of_len(pairs_of(self.entries@));
        }
        self.entries.len()
    }

    /// The value associated with the key, or `None` when the key has no
    /// entry.  Never mutates the store and never touches the cache.
    pub fn get(&self, key: &str) -> (r: Option<String>)
        requires
            self.wf(),
        ensures
            match r {
                Some(v) => self@.contains_key(key@) && v@ == self@[key@],
                None => !self@.contains_key(key@),
            },
    {
        let k: String = key.to_owned();
        let n = self.entries.len();
        let mut i: usize = 0;
        while i < n
            invariant
                n == self.entries@.len(),
                i <= n,
                k@ == key@,
                self.wf(),
                forall|j: int| 0 <= j < i ==> self.entries@[j].key@ != key@,
            decreases n - i,
        {
            if self.entries[i].key == k {
                proof {
                    assert(pairs_of(self.entries@)[i as int].0 == key@);
                    lemma_map_of_index(pairs_of(self.entries@), i as int);
                }
                return Some(self.entries[i].value.clone());
            }
            i += 1;
        }
        proof {
            let ps = pairs_of(self.entries@);
            assert(forall|j: int| 0 <= j < ps.len() ==> ps[j].0 != key@);
            lemma_map_of_absent(ps, key@);
        }
        None
    }

    /// Upserts the pair, reporting whether the key already existed (`true`:
    /// the value was replaced; `false`: the key is new).  Always discards the
    /// export cache, even when the value is unchanged.
    pub fn insert(&mut self, key: &str, value: &str) -> (r: bool)
        requires
            old(self).wf(),
        ensures
            final(self).wf(),
            r == old(self)@.contains_key(key@),
            final(self)@ == old(self)@.insert(key@, value@),
            final(self).cache_records() is None,
    {
        self.cache = None;
        let k: String = key.to_owned();
        let v: String = value.to_owned();
        let n = self.entries.len();
        let mut i: usize = 0;
        while i < n
            invariant
                n == self.entries@.len(),
                i <= n,
                k@ == key@,
                v@ == value@,
                self.entries@ == old(self).entries@,
                self.cache is None,
                unique_keys(pairs_of(self.entries@)),
                forall|j: int| 0 <= j < i ==> self.entries@[j].key@ != key@,
            decreases n - i,
        {
            if self.entries[i].key == k {
                let ghost ps = pairs_of(self.entries@);
                self.entries.set(i, Entry { key: k, value: v });
                proof {
                    assert(ps[i as int].0 == key@);
                    lemma_map_of_index(ps, i as int);
                    lemma_pairs_of_update(old(self).entries@, i as int, self.entries@[i as int]);
                    lemma_map_of_update(ps, i as int, (key@, value@));
                    lemma_unique_update(ps, i as int, (key@, value@));
                }
                return true;
            }
            i += 1;
        }
        let ghost ps = pairs_of(self.entries@);
        self.entries.push(Entry { key: k, value: v });
        proof {
            assert(forall|j: int| 0 <= j < ps.len() ==> ps[j].0 != key@);
            lemma_map_of_absent(ps, key@);
            lemma_pairs_of_push(old(self).entries@, self.entries@[n as int]);
            lemma_map_of_push(ps, (key@, value@));
            lemma_unique_push(ps, (key@, value@));
        }
        false
    }

    /// Removes the key's entry if present, reporting whether it existed.
    /// Always discards the export cache, even when the key was absent.
    pub fn delete(&mut self, key: &str) -> (r: bool)
        requires
            old(self).wf(),
        ensures
            final(self).wf(),
            r == old(self)@.contains_key(key@),
            final(self)@ == old(self)@.remove(key@),
            final(self).cache_records() is None,
    {
        self.cache = None;
        let k: String = key.to_owned();
        let n = self.entries.len();
        let mut i: usize = 0;
        while i < n
            invariant
                n == self.entries@.len(),
                i <= n,
                k@ == key@,
                self.entries@ == old(self).entries@,
                self.cache is None,
                unique_keys(pairs_of(self.entries@)),
                forall|j: int| 0 <= j < i ==> self.entries@[j].key@ != key@,
            decreases n - i,
        {
            if self.entries[i].key == k {
                let ghost ps = pairs_of(self.entries@);
                self.entries.remove(i);
                proof {
                    assert(ps[i as int].0 == key@);
                    lemma_map_of_index(ps, i as int);
                    lemma_pairs_of_remove(old(self).entries@, i as int);
                    lemma_map_of_remove(ps, i as int);
                    lemma_unique_remove(ps, i as int);
                }
                return true;
            }
            i += 1;
        }
        proof {
            let ps = pairs_of(self.entries@);
            assert(forall|j: int| 0 <= j < ps.len() ==> ps[j].0 != key@);
            lemma_map_of_absent(ps, key@);
            assert(old(self)@.remove(key@) =~= old(self)@);
        }
        false
    }

    /// All the key/value records, copied out.  The order is not part of the
    /// contract: only which pairs appear is.
    pub fn iter(&self) -> (r: Vec<Entry>)
        requires
            self.wf(),
        ensures
            unique_keys(pairs_of(r@)),
            map_of(pairs_of(r@)) == self@,
            r@.len() == self@.dom().len(),
            forall|i: int|
                0 <= i < r@.len() ==> self@.contains_key(r@[i].key@) && self@[r@[i].key@]
                    == r@[i].value@,
    {
        let r = self.entries.clone();
        proof {
            assert forall|i: int| 0 <= i < r@.len() implies r@[i] == self.entries@[i] by {
                assert(cloned::<Entry>(self.entries@[i], r@[i]));
            }
            assert(r@ =~= self.entries@);
            lemma_map_of_len(pairs_of(r@));
            assert forall|i: int|
                0 <= i < r@.len() implies self@.contains_key(r@[i].key@) && self@[r@[i].key@]
                    == r@[i].value@ by {
                assert(pairs_of(r@)[i] == (r@[i].key@, r@[i].value@));
                lemma_map_of_index(pairs_of(r@), i);
            }
        }
        r
    }

    /// The flat foreign-compatible form of the store's current content,
    /// valid exactly as long as the store is not mutated.
    ///
    /// When a cache is live (no mutation since it was built), the records
    /// are served from it without a rebuild; otherwise they are rebuilt from
    /// the current entries and kept as the new cache.
    pub fn to_flat(&mut self) -> (r: FlatMetadata)
        requires
            old(self).wf(),
        ensures
            final(self).wf(),
            final(self).records() == old(self).records(),
            final(self)@ == old(self)@,
            final(self).cache_records() == Some(r.entries@),
            r.entries@ == old(self).records(),
            r@ == old(self)@,
            unique_keys(pairs_of(r.entries@)),
            r.entries@.len() == old(self)@.dom().len(),
            old(self).cache_records() matches Some(c) ==> r.entries@ == c,
    {
        if self.cache.is_none() {
            let rebuilt = self.entries.clone();
            proof {
                assert forall|i: int|
                    0 <= i < rebuilt@.len() implies rebuilt@[i] == self.entries@[i] by {
                    assert(cloned::<Entry>(self.entries@[i], rebuilt@[i]));
                }
                assert(rebuilt@ =~= self.entries@);
            }
            self.cache = Some(FlatMetadata { entries: rebuilt });
        }
        proof {
            lemma_map_of_len(pairs_of(self.entries@));
        }
        self.cache.as_ref().unwrap().clone()
    }

    /// Builds a new, independent store holding a deep copy of every pair the
    /// foreign record list describes; when a key occurs twice, the later
    /// record wins.  The cache of the new store starts absent.
    ///
    /// The result is fallible only so that validation can be added later
    /// without changing the signature; no error is currently produced, and
    /// the contract promises success on every input.
    pub fn from_flat(flat: &FlatMetadata) -> (r: Result<Custom, ImportError>)
        ensures
            r is Ok,
            r matches Ok(c) ==> c.wf() && c@ == flat@ && c.cache_records() is None,
    {
        let mut c = Custom { entries: Vec::new(), cache: None };
        proof {
            assert(pairs_of(c.entries@) =~= Seq::<Pair>::empty());
            assert(pairs_of(flat.entries@.take(0)) =~= Seq::<Pair>::empty());
        }
        let n = flat.entries.len();
        let mut i: usize = 0;
        while i < n
            invariant
                n == flat.entries@.len(),
                i <= n,
                c.wf(),
                c.cache_records() is None,
                c@ == map_of(pairs_of(flat.entries@.take(i as int))),
            decreases n - i,
        {
            let e = &flat.entries[i];
            c.insert(e.key.as_str(), e.value.as_str());
            proof {
                let prefix = flat.entries@.take(i as int);
                assert(pairs_of(prefix.push(flat.entries@[i as int])) =~= pairs_of(
                    prefix,
                ).push((e.key@, e.value@)));
                lemma_map_of_push(pairs_of(prefix), (e.key@, e.value@));
                assert(flat.entries@.take(i + 1) =~= prefix.push(flat.entries@[i as int]));
            }
            i += 1;
        }
        proof {
            assert(flat.entries@.take(n as int) =~= flat.entries@);
        }
        Ok(c)
    }
}

impl Clone for Custom {
    /// Deep copy of all entries.  The new store's cache starts absent
    /// regardless of the source's cache state: caches are derived, never
    /// shared or copied.
    fn clone(&self) -> (res: Self)
        ensures
            res.records() == self.records(),
            res@ == self@,
            res.cache_records() is None,
            self.wf() ==> res.wf(),
    {
        let entries = self.entries.clone();
        proof {
            assert forall|i: int|
                0 <= i < entries@.len() implies entries@[i] == self.entries@[i] by {
                assert(cloned::<Entry>(self.entries@[i], entries@[i]));
            }
            assert(entries@ =~= self.entries@);
        }
        Custom { entries, cache: None }
    }
}

impl Default for Custom {
    /// The empty store, with no cache.
    fn default() -> (res: Self)
        ensures
            res.wf(),
            res@ == Map::<Seq<char>, Seq<char>>::empty(),
            res@.dom().len() == 0,
            res.cache_records() is None,
    {
        let res = Custom { entries: Vec::new(), cache: None };
        proof {
            assert(pairs_of(res.entries@) =~= Seq::<Pair>::empty());
            assert(res@.dom() =~= Set::<Seq<char>>::empty());
        }
        res
    }
}

} // verus!
