//! A set that remembers the order in which its items were inserted.

use vstd::prelude::*;

use crate::collections::seq_model::{
    insert_unique, last_index, lemma_last_index, lemma_last_index_is, lemma_take_all,
    lemma_take_step, lemma_view_all_push, minus_seq, union_seq, view_all, without,
};
use crate::collections::seq_facts::{
    lemma_insert_keeps_distinct, lemma_minus_keeps_distinct, lemma_without_members,
};
use crate::common::GraphValue;

verus! {

/// A set of values compared by their views. Its view is the sequence of the
/// items' views in the order of insertion. A set that is made by `new`,
/// `unit` or `from_vec` holds each item once, and every operation keeps it
/// so.
#[derive(Debug, Clone)]
pub struct VecSet<X> {
    items: Vec<X>,
}

impl<X: View> View for VecSet<X> {
    type V = Seq<X::V>;

    closed spec fn view(&self) -> Seq<X::V> {
        view_all(self.items@)
    }
}

impl<X: GraphValue> VecSet<X> {
    /// The empty set.
    pub fn new() -> (r: Self)
        ensures
            r@ == Seq::<X::V>::empty(),
            r@.no_duplicates(),
    {
        let r = VecSet { items: Vec::new() };
        assert(r@ =~= Seq::<X::V>::empty());
        r
    }

    /// The set that holds `x` alone.
    pub fn unit(x: X) -> (r: Self)
        ensures
            r@ == seq![x@],
            r@.no_duplicates(),
    {
        let mut items = Vec::new();
        items.push(x);
        assert(view_all(items@) =~= seq![x@]);
        let r = VecSet { items };
        r
    }

    /// The number of items: of members, where each item is held once.
    pub fn len(&self) -> (n: usize)
        ensures
            n == self@.len(),
            self@.no_duplicates() ==> n == self@.to_set().len(),
    {
        proof {
            if self@.no_duplicates() {
                self@.unique_seq_to_set();
            }
        }
        self.items.len()
    }

    pub fn is_empty(&self) -> (b: bool)
        ensures
            b == (self@.len() == 0),
    {
        self.items.len() == 0
    }

    /// The item at position `i` in the order of insertion.
    pub fn get(&self, i: usize) -> (x: &X)
        requires
            i < self@.len(),
        ensures
            x@ == self@[i as int],
    {
        &self.items[i]
    }

    /// The position of the last item equal to `x`.
    pub fn position(&self, x: &X) -> (r: Option<usize>)
        ensures
            match r {
                Some(i) => i as int == last_index(self@, x@),
                None => last_index(self@, x@) == -1,
            },
    {
        let mut i: usize = self.items.len();
        while i > 0
            invariant
                i <= self.items.len(),
                forall|j: int| i <= j < self@.len() ==> self@[j] != x@,
            decreases i,
        {
            i -= 1;
            if self.items[i].same(x) {
                proof {
                    lemma_last_index_is(self@, x@, i as int);
                }
                return Some(i);
            }
        }
        proof {
            lemma_last_index_is(self@, x@, -1);
        }
        None
    }

    pub fn contains(&self, x: &X) -> (b: bool)
        ensures
            b == self@.contains(x@),
    {
        proof {
            lemma_last_index(self@, x@);
        }
        self.position(x).is_some()
    }

    /// Adds `x` unless the set holds it already.
    pub fn insert(&mut self, x: X)
        ensures
            final(self)@ == insert_unique(old(self)@, x@),
            old(self)@.no_duplicates() ==> final(self)@.no_duplicates(),
    {
        proof {
            if self@.no_duplicates() {
                lemma_insert_keeps_distinct(self@, x@);
            }
        }
        if !self.contains(&x) {
            proof {
                lemma_view_all_push(self.items@, x);
            }
            self.items.push(x);
        }
    }

    /// Removes `x` if the set holds it, and says whether it did.
    pub fn remove(&mut self, x: &X) -> (b: bool)
        ensures
            final(self)@ == without(old(self)@, x@),
            b == old(self)@.contains(x@),
            old(self)@.no_duplicates() ==> final(self)@.no_duplicates(),
    {
        proof {
            lemma_last_index(self@, x@);
            if self@.no_duplicates() {
                lemma_without_members(self@, x@, x@);
            }
        }
        match self.position(x) {
            Some(i) => {
                let ghost before = self.items@;
                self.items.remove(i);
                assert(view_all(before.remove(i as int)) =~= view_all(before).remove(i as int));
                true
            },
            None => false,
        }
    }

    /// A set with the same items in the same order.
    pub fn duplicate(&self) -> (r: Self)
        ensures
            r@ == self@,
    {
        let mut items: Vec<X> = Vec::new();
        let mut i: usize = 0;
        while i < self.items.len()
            invariant
                i <= self.items.len(),
                view_all(items@) == self@.take(i as int),
            decreases self.items.len() - i,
        {
            proof {
                lemma_view_all_push(items@, self.items@[i as int]);
                lemma_take_step(self@, i as int);
            }
            let x = self.items[i].duplicate();
            proof {
                lemma_view_all_push(items@, x);
            }
            items.push(x);
            i += 1;
        }
        proof {
            lemma_take_all(self@);
        }
        VecSet { items }
    }

    /// The items of `self`, then those of `other` that `self` lacks.
    pub fn union(&self, other: &Self) -> (r: Self)
        ensures
            r@ == union_seq(self@, other@),
            self@.no_duplicates() ==> r@.no_duplicates(),
    {
        let mut r = self.duplicate();
        let mut i: usize = 0;
        while i < other.len()
            invariant
                i <= other@.len(),
                r@ == union_seq(self@, other@.take(i as int)),
                self@.no_duplicates() ==> r@.no_duplicates(),
            decreases other@.len() - i,
        {
            proof {
                lemma_take_step(other@, i as int);
            }
            r.insert(other.get(i).duplicate());
            i += 1;
        }
        proof {
            lemma_take_all(other@);
        }
        r
    }

    /// The items of `self` that `other` does not hold.
    pub fn relative_complement(&self, other: &Self) -> (r: Self)
        ensures
            r@ == minus_seq(self@, other@),
            self@.no_duplicates() ==> r@.no_duplicates(),
    {
        proof {
            if self@.no_duplicates() {
                lemma_minus_keeps_distinct(self@, other@);
            }
        }
        let mut items: Vec<X> = Vec::new();
        let mut i: usize = 0;
        while i < self.len()
            invariant
                i <= self@.len(),
                view_all(items@) == minus_seq(self@.take(i as int), other@),
            decreases self@.len() - i,
        {
            proof {
                lemma_take_step(self@, i as int);
            }
            if !other.contains(self.get(i)) {
                let x = self.get(i).duplicate();
                proof {
                    lemma_view_all_push(items@, x);
                }
                items.push(x);
            }
            i += 1;
        }
        proof {
            lemma_take_all(self@);
        }
        VecSet { items }
    }

    /// The set of the items of `v`, in their order, each once.
    pub fn from_vec(v: Vec<X>) -> (r: Self)
        ensures
            r@ == union_seq(Seq::<X::V>::empty(), view_all(v@)),
            r@.no_duplicates(),
    {
        let mut r = Self::new();
        let mut i: usize = 0;
        while i < v.len()
            invariant
                i <= v.len(),
                r@ == union_seq(Seq::<X::V>::empty(), view_all(v@).take(i as int)),
                r@.no_duplicates(),
            decreases v.len() - i,
        {
            proof {
                lemma_take_step(view_all(v@), i as int);
            }
            r.insert(v[i].duplicate());
            i += 1;
        }
        proof {
            lemma_take_all(view_all(v@));
        }
        r
    }

    /// The items in the order of insertion.
    pub fn to_vec(&self) -> (v: Vec<X>)
        ensures
            view_all(v@) == self@,
    {
        self.duplicate().items
    }
}

} // verus!
