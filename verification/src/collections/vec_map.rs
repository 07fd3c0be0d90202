//! A map that remembers the order in which its keys were inserted.

use vstd::prelude::*;

use crate::collections::seq_model::{
    drop_key, has_key, key_index, lemma_key_index, lemma_key_index_is, lookup, map_values_seq,
    put,
};
use crate::common::GraphValue;

verus! {

/// A map with keys compared by their views. Its view is the sequence of
/// its entries' views; a key is looked up from the end.
#[derive(Debug, Clone)]
pub struct VecMap<K, V> {
    entries: Vec<(K, V)>,
}

/// The views of the entries of a map, in order.
pub open spec fn view_entries<K: View, V: View>(s: Seq<(K, V)>) -> Seq<(K::V, V::V)> {
    Seq::new(s.len(), |i: int| (s[i].0@, s[i].1@))
}

impl<K: View, V: View> View for VecMap<K, V> {
    type V = Seq<(K::V, V::V)>;

    closed spec fn view(&self) -> Seq<(K::V, V::V)> {
        view_entries(self.entries@)
    }
}

impl<K: GraphValue, V: View> VecMap<K, V> {
    /// The empty map.
    pub fn new() -> (r: Self)
        ensures
            r@ == Seq::<(K::V, V::V)>::empty(),
    {
        let r = VecMap { entries: Vec::new() };
        assert(r@ =~= Seq::<(K::V, V::V)>::empty());
        r
    }

    pub fn len(&self) -> (n: usize)
        ensures
            n == self@.len(),
    {
        self.entries.len()
    }

    pub fn is_empty(&self) -> (b: bool)
        ensures
            b == (self@.len() == 0),
    {
        self.entries.len() == 0
    }

    /// The key of the entry at position `i`.
    pub fn key_at(&self, i: usize) -> (k: &K)
        requires
            i < self@.len(),
        ensures
            k@ == self@[i as int].0,
    {
        &self.entries[i].0
    }

    /// The value of the entry at position `i`.
    pub fn value_at(&self, i: usize) -> (v: &V)
        requires
            i < self@.len(),
        ensures
            v@ == self@[i as int].1,
    {
        &self.entries[i].1
    }

    /// The position of the entry under `k`.
    pub fn position(&self, k: &K) -> (r: Option<usize>)
        ensures
            match r {
                Some(i) => i as int == key_index(self@, k@),
                None => key_index(self@, k@) == -1,
            },
    {
        let mut i: usize = self.entries.len();
        while i > 0
            invariant
                i <= self.entries.len(),
                forall|j: int| i <= j < self@.len() ==> (#[trigger] self@[j]).0 != k@,
            decreases i,
        {
            i -= 1;
            if self.entries[i].0.same(k) {
                proof {
                    lemma_key_index_is(self@, k@, i as int);
                }
                return Some(i);
            }
        }
        proof {
            lemma_key_index_is(self@, k@, -1);
        }
        None
    }

    pub fn contains_key(&self, k: &K) -> (b: bool)
        ensures
            b == has_key(self@, k@),
    {
        self.position(k).is_some()
    }

    /// The value under `k`.
    pub fn get(&self, k: &K) -> (r: Option<&V>)
        ensures
            match r {
                Some(v) => lookup(self@, k@) == Some(v@),
                None => lookup(self@, k@) is None,
            },
    {
        proof {
            lemma_key_index(self@, k@);
        }
        match self.position(k) {
            Some(i) => Some(&self.entries[i].1),
            None => None,
        }
    }

    /// Puts `v` under `k`, in place of the value that was there if there was
    /// one.
    pub fn insert(&mut self, k: K, v: V)
        ensures
            final(self)@ == put(old(self)@, k@, v@),
    {
        proof {
            lemma_key_index(self@, k@);
        }
        let ghost before = self.entries@;
        match self.position(&k) {
            Some(i) => {
                self.entries[i] = (k, v);
                assert(view_entries(before.update(i as int, (k, v))) =~= view_entries(
                    before,
                ).update(i as int, (k@, v@)));
            },
            None => {
                self.entries.push((k, v));
                assert(view_entries(before.push((k, v))) =~= view_entries(before).push(
                    (k@, v@),
                ));
            },
        }
    }

    /// The same keys in the same order, each with the image of its value
    /// under `f`; `g` says what `f` does to a view.
    pub fn map_values<W: View, F: Fn(&V) -> W>(
        &self,
        f: F,
        Ghost(g): Ghost<spec_fn(V::V) -> W::V>,
    ) -> (r: VecMap<K, W>)
        requires
            forall|v: &V| #[trigger] f.requires((v,)),
            forall|v: &V, w: W| #[trigger] f.ensures((v,), w) ==> w@ == g(v@),
        ensures
            r@ == map_values_seq(self@, g),
    {
        let mut entries: Vec<(K, W)> = Vec::new();
        let mut i: usize = 0;
        while i < self.entries.len()
            invariant
                i <= self.entries.len(),
                forall|v: &V| #[trigger] f.requires((v,)),
                forall|v: &V, w: W| #[trigger] f.ensures((v,), w) ==> w@ == g(v@),
                view_entries(entries@) == map_values_seq(self@, g).take(i as int),
            decreases self.entries.len() - i,
        {
            let k = self.entries[i].0.duplicate();
            let w = f(&self.entries[i].1);
            let ghost before = entries@;
            entries.push((k, w));
            assert(view_entries(before.push((k, w))) =~= map_values_seq(self@, g).take(
                i as int,
            ).push((k@, w@)));
            assert(map_values_seq(self@, g).take(i + 1) =~= map_values_seq(self@, g).take(
                i as int,
            ).push((k@, w@)));
            i += 1;
        }
        assert(map_values_seq(self@, g).take(self.entries.len() as int) =~= map_values_seq(
            self@,
            g,
        ));
        VecMap { entries }
    }

    /// The same entries once more; `f` copies a value.
    pub fn duplicate_with<F: Fn(&V) -> V>(&self, f: F) -> (r: VecMap<K, V>)
        requires
            forall|v: &V| #[trigger] f.requires((v,)),
            forall|v: &V, w: V| #[trigger] f.ensures((v,), w) ==> w@ == v@,
        ensures
            r@ == self@,
    {
        let r = self.map_values(f, Ghost(|v: V::V| v));
        assert(map_values_seq(self@, |v: V::V| v) =~= self@);
        r
    }

    /// Removes the entry under `k` and hands its value out.
    pub fn remove(&mut self, k: &K) -> (r: Option<V>)
        ensures
            final(self)@ == drop_key(old(self)@, k@),
            match r {
                Some(v) => lookup(old(self)@, k@) == Some(v@),
                None => lookup(old(self)@, k@) is None,
            },
    {
        proof {
            lemma_key_index(self@, k@);
        }
        let ghost before = self.entries@;
        match self.position(k) {
            Some(i) => {
                let entry = self.entries.remove(i);
                assert(view_entries(before.remove(i as int)) =~= view_entries(before).remove(
                    i as int,
                ));
                Some(entry.1)
            },
            None => None,
        }
    }
}

} // verus!
