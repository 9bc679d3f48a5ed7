//! The flat, foreign-compatible form of custom metadata: a list of owned
//! key/value records, the counterpart of the native descriptor that holds a
//! count and that many pointer-plus-length records.

use vstd::prelude::*;

use crate::model::Pair;
use crate::model::map_of;

verus! {

/// One key/value record.  Both fields are owned UTF-8 text; either may
/// contain embedded NUL characters, so lengths are always explicit and
/// nothing ever scans for a terminator.
pub struct Entry {
    pub key: String,
    pub value: String,
}

impl Clone for Entry {
    fn clone(&self) -> (res: Self)
        ensures
            res == *self,
    {
        Entry { key: self.key.clone(), value: self.value.clone() }
    }
}

/// The pairs of character sequences a record list stands for.
pub open spec fn pairs_of(s: Seq<Entry>) -> Seq<Pair> {
    s.map_values(|e: Entry| (e.key@, e.value@))
}

pub proof fn lemma_pairs_of_push(s: Seq<Entry>, e: Entry)
    ensures
        pairs_of(s.push(e)) == pairs_of(s).push((e.key@, e.value@)),
{
    assert(pairs_of(s.push(e)) =~= pairs_of(s).push((e.key@, e.value@)));
}

pub proof fn lemma_pairs_of_update(s: Seq<Entry>, i: int, e: Entry)
    requires
        0 <= i < s.len(),
    ensures
        pairs_of(s.update(i, e)) == pairs_of(s).update(i, (e.key@, e.value@)),
{
    assert(pairs_of(s.update(i, e)) =~= pairs_of(s).update(i, (e.key@, e.value@)));
}

pub proof fn lemma_pairs_of_remove(s: Seq<Entry>, i: int)
    requires
        0 <= i < s.len(),
    ensures
        pairs_of(s.remove(i)) == pairs_of(s).remove(i),
{
    assert(pairs_of(s.remove(i)) =~= pairs_of(s).remove(i));
}

/// A foreign-compatible flat list of metadata records: the owned counterpart
/// of the native descriptor.  The descriptor's count is the length of
/// `entries`; an empty list stands for a descriptor with count zero and no
/// records pointer.
pub struct FlatMetadata {
    pub entries: Vec<Entry>,
}

impl View for FlatMetadata {
    type V = Map<Seq<char>, Seq<char>>;

    open spec fn view(&self) -> Map<Seq<char>, Seq<char>> {
        map_of(pairs_of(self.entries@))
    }
}

impl FlatMetadata {
    /// The number of records, the `count` of the native descriptor.
    pub fn count(&self) -> (r: usize)
        ensures
            r == self.entries@.len(),
    {
        self.entries.len()
    }
}

impl Clone for FlatMetadata {
    fn clone(&self) -> (res: Self)
        ensures
            res.entries@ == self.entries@,
    {
        let entries = self.entries.clone();
        proof {
            assert forall|i: int| 0 <= i < entries@.len() implies entries@[i]
                == self.entries@[i] by {
                assert(cloned::<Entry>(self.entries@[i], entries@[i]));
            }
            assert(entries@ =~= self.entries@);
        }
        FlatMetadata { entries }
    }
}

impl Default for FlatMetadata {
    /// The empty descriptor: count zero, no records.
    fn default() -> (res: Self)
        ensures
            res.entries@.len() == 0,
            res@ == Map::<Seq<char>, Seq<char>>::empty(),
    {
        let res = FlatMetadata { entries: Vec::new() };
        proof {
            assert(pairs_of(res.entries@) =~= Seq::<Pair>::empty());
        }
        res
    }
}

} // verus!
