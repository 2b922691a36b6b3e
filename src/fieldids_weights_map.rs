//! Links the searchable fields with their weights.

use std::collections::HashMap;

use vstd::prelude::*;
use vstd::std_specs::iter::IteratorSpec;

use crate::{FieldId, Weight};

verus! {

broadcast use vstd::std_specs::hash::group_hash_axioms;

/// Map from field id to weight.
#[derive(Debug)]
pub struct FieldidsWeightsMap {
    map: HashMap<FieldId, Weight>,
}

impl View for FieldidsWeightsMap {
    type V = Map<FieldId, Weight>;

    closed spec fn view(&self) -> Map<FieldId, Weight> {
        self.map@
    }
}

impl Default for FieldidsWeightsMap {
    fn default() -> (r: Self)
        ensures
            r@ == Map::<FieldId, Weight>::empty(),
    {
        FieldidsWeightsMap { map: HashMap::new() }
    }
}

impl FieldidsWeightsMap {
    /// An empty map.
    pub fn new() -> (r: Self)
        ensures
            r@ == Map::<FieldId, Weight>::empty(),
    {
        FieldidsWeightsMap { map: HashMap::new() }
    }

    /// Insert a field id -> weight into the map.
    /// If the map did not have this key present, `None` is returned.
    /// If the map did have this key present, the value is updated, and the old value is returned.
    pub fn insert(&mut self, fid: FieldId, weight: Weight) -> (r: Option<Weight>)
        ensures
            final(self)@ == old(self)@.insert(fid, weight),
            r == (if old(self)@.contains_key(fid) {
                Some(old(self)@[fid])
            } else {
                None
            }),
    {
        self.map.insert(fid, weight)
    }

    /// Removes a field id from the map, returning the associated weight previously in the map.
    pub fn remove(&mut self, fid: FieldId) -> (r: Option<Weight>)
        ensures
            final(self)@ == old(self)@.remove(fid),
            r == (if old(self)@.contains_key(fid) {
                Some(old(self)@[fid])
            } else {
                None
            }),
    {
        self.map.remove(&fid)
    }

    /// Returns weight corresponding to the key.
    pub fn weight(&self, fid: FieldId) -> (r: Option<Weight>)
        ensures
            r == (if self@.contains_key(fid) {
                Some(self@[fid])
            } else {
                None
            }),
    {
        match self.map.get(&fid) {
            Some(w) => Some(*w),
            None => None,
        }
    }

    /// Returns highest weight contained in the map if any.
    pub fn max_weight(&self) -> (r: Option<Weight>)
        ensures
            r is None <==> self@.dom().is_empty(),
            r matches Some(m) ==> self@.values().contains(m),
            r matches Some(m) ==> forall|w: Weight| self@.values().contains(w) ==> w <= m,
    {
        let mut best: Option<Weight> = None;
        let ghost vs = self.map.values().remaining().unref();
        for w in it: self.map.values()
            invariant
                it.seq().unref() == vs,
                best matches Some(m) ==> vs.contains(m),
                best matches Some(m) ==> forall|j: int| 0 <= j < it.index() ==> vs[j] <= m,
                it.seq().unref().to_set() == self@.values(),
                it.seq().len() == self@.dom().len(),
                best is None <==> it.index() == 0,
        {
            best = match best {
                Some(m) => if *w > m { Some(*w) } else { Some(m) },
                None => Some(*w),
            };
        }
        proof {
            assert forall|w: Weight| self@.values().contains(w) implies best matches Some(m) && w <= m by {
                assert(vs.to_set().contains(w));
            }
        }
        best
    }

    /// Returns all field ids of the map, each once, in arbitrary order.
    pub fn ids(&self) -> (r: Vec<FieldId>)
        ensures
            r@.to_set() == self@.dom(),
            r@.no_duplicates(),
    {
        let mut ids: Vec<FieldId> = Vec::new();
        let ghost ks = self.map.keys().remaining().unref();
        for fid in it: self.map.keys()
            invariant
                it.seq().unref() == ks,
                it.seq().unref().to_set() == self@.dom(),
                it.seq().unref().no_duplicates(),
                ids@ == it.seq().unref().take(it.index()),
        {
            ids.push(*fid);
        }
        assert(ks.take(ks.len() as int) =~= ks);
        ids
    }
}

} // verus!
