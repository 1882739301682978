//! An ordered map and set, kept as entries in ascending key order.
use vstd::prelude::*;
use vstd::std_specs::cmp::OrdSpec;

verus! {

/// One key and its value.
#[derive(Clone, Debug, PartialEq, Eq)]
pub struct MapEntry<K, V> {
    key: K,
    value: V,
}

impl<K, V> View for MapEntry<K, V> {
    type V = (K, V);

    closed spec fn view(&self) -> (K, V) {
        (self.key, self.value)
    }
}

/// The summary of a run of entries: the key of its last entry (none for no entries).
#[derive(Clone, Debug, PartialEq, Eq, PartialOrd, Ord)]
pub struct MapKey<K>(pub Option<K>);

impl<K> Default for MapKey<K> {
    fn default() -> (r: Self)
        ensures
            r.0 is None,
    {
        Self(None)
    }
}

impl<K: Clone> MapKey<K> {
    /// The summary of no entries.
    pub fn zero() -> (r: Self)
        ensures
            r.0 is None,
    {
        Self(None)
    }

    /// Appends the summary of later entries: their last key is the last key.
    pub fn add_summary(&mut self, summary: &Self)
        ensures
            summary.0 is None ==> final(self).0 is None,
            summary.0 is Some ==> final(self).0 is Some && cloned::<K>(
                summary.0->0,
                final(self).0->0,
            ),
    {
        *self = Self(summary.0.clone());
    }
}

impl<K: Clone, V> MapEntry<K, V> {
    /// The entry's key, as the key of a run of entries.
    pub fn key(&self) -> (r: MapKey<K>)
        ensures
            r.0 is Some && cloned::<K>(self@.0, r.0->0),
    {
        MapKey(Some(self.key.clone()))
    }

    /// An entry sums to its own key.
    pub fn summary(&self) -> (r: MapKey<K>)
        ensures
            r.0 is Some && cloned::<K>(self@.0, r.0->0),
    {
        self.key()
    }
}

/// A cheaply-cloneable ordered map: its entries in ascending key order.
#[derive(PartialEq, Eq)]
pub struct TreeMap<K, V>(Vec<MapEntry<K, V>>) where K: Clone + Ord;

impl<K: Clone + Ord, V> View for TreeMap<K, V> {
    type V = Seq<(K, V)>;

    closed spec fn view(&self) -> Seq<(K, V)> {
        self.0@.map_values(|e: MapEntry<K, V>| e@)
    }
}

/// Whether the keys of the entries strictly ascend in the keys' order.
pub open spec fn keys_ascend<K: Ord, V>(entries: Seq<(K, V)>) -> bool {
    forall|i: int, j: int|
        #![trigger entries[i], entries[j]]
        0 <= i < j < entries.len() ==> entries[i].0.cmp_spec(&entries[j].0) is Less
}

impl<K: Clone + Ord, V> TreeMap<K, V> {
    /// Each key stands before every greater key, and no key twice.
    #[verifier::type_invariant]
    spec fn entries_in_key_order(self) -> bool {
        keys_ascend(self@)
    }
}

impl<K: Clone + Ord, V> Default for TreeMap<K, V> {
    fn default() -> (r: Self)
        ensures
            r@ == Seq::<(K, V)>::empty(),
    {
        let r = TreeMap(Vec::new());
        proof {
            assert(r@ =~= Seq::<(K, V)>::empty());
        }
        r
    }
}

impl<K: Clone + Ord, V> TreeMap<K, V> {
    /// The entries in key order, each as a key and its value.
    pub fn iter(&self) -> (r: Vec<(&K, &V)>)
        ensures
            r@.len() == self@.len(),
            forall|i: int|
                0 <= i < r@.len() ==> *(#[trigger] r@[i]).0 == self@[i].0 && *r@[i].1
                    == self@[i].1,
            forall|i: int, j: int|
                #![trigger r@[i], r@[j]]
                0 <= i < j < r@.len() ==> (*r@[i].0).cmp_spec(&*r@[j].0) is Less,
    {
        proof {
            use_type_invariant(self);
        }
        let mut r: Vec<(&K, &V)> = Vec::new();
        let mut i: usize = 0;
        while i < self.0.len()
            invariant
                i <= self.0@.len(),
                r@.len() == i,
                forall|k: int|
                    0 <= k < i ==> *(#[trigger] r@[k]).0 == self@[k].0 && *r@[k].1 == self@[k].1,
            decreases self.0@.len() - i,
        {
            let e = &self.0[i];
            r.push((&e.key, &e.value));
            i += 1;
        }
        r
    }
}

impl<K: Copy + Ord, V: Clone> Clone for TreeMap<K, V> {
    /// The same keys in the same order, each with a clone of its value.
    fn clone(&self) -> (r: Self)
        ensures
            r@.len() == self@.len(),
            forall|i: int|
                0 <= i < r@.len() ==> (#[trigger] r@[i]).0 == self@[i].0 && cloned::<V>(
                    self@[i].1,
                    r@[i].1,
                ),
    {
        proof {
            use_type_invariant(self);
        }
        let mut entries: Vec<MapEntry<K, V>> = Vec::new();
        let mut i: usize = 0;
        while i < self.0.len()
            invariant
                i <= self.0@.len(),
                entries@.len() == i,
                keys_ascend(self@),
                forall|k: int|
                    0 <= k < i ==> (#[trigger] entries@[k]).key == self.0@[k].key && cloned::<V>(
                        self.0@[k].value,
                        entries@[k].value,
                    ),
            decreases self.0@.len() - i,
        {
            let e = &self.0[i];
            entries.push(MapEntry { key: e.key, value: e.value.clone() });
            i += 1;
        }
        proof {
            let v = entries@.map_values(|e: MapEntry<K, V>| e@);
            assert forall|a: int, b: int|
                #![trigger v[a], v[b]]
                0 <= a < b < v.len() implies v[a].0.cmp_spec(&v[b].0) is Less by {
                assert(v[a].0 == self@[a].0);
                assert(v[b].0 == self@[b].0);
            }
            assert(keys_ascend(v));
        }
        TreeMap(entries)
    }
}

/// An ordered set: a map whose values carry nothing.
#[derive(PartialEq, Eq)]
pub struct TreeSet<K>(TreeMap<K, ()>) where K: Clone + Ord;

impl<K: Clone + Ord> View for TreeSet<K> {
    type V = Seq<K>;

    /// The keys in ascending order.
    closed spec fn view(&self) -> Seq<K> {
        self.0@.map_values(|e: (K, ())| e.0)
    }
}

impl<K: Copy + Ord> Clone for TreeSet<K> {
    /// The same keys in the same order.
    fn clone(&self) -> (r: Self)
        ensures
            r@ == self@,
    {
        let r = TreeSet(self.0.clone());
        proof {
            assert(r@ =~= self@);
        }
        r
    }
}

} // verus!
