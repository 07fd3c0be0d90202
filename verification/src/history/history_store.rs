//! The two stacks of the history.

use vstd::prelude::*;

use crate::collections::seq_model::{lemma_view_all_push, view_all};
use crate::common::GraphTraits;
use crate::history::history_item::{HistoryItem, HistoryItemView};

verus! {

/// What was applied and can be undone, and what was undone and can be done
/// again. The last item of a stack is its top.
#[derive(Debug, Clone)]
pub struct HistoryStore<T, E, A> {
    pub undo_stack: Vec<HistoryItem<T, E, A>>,
    pub redo_stack: Vec<HistoryItem<T, E, A>>,
}

/// What a [`HistoryStore`] holds.
pub struct HistoryStoreView<TV, EV, AV> {
    pub undo_stack: Seq<HistoryItemView<TV, EV, AV>>,
    pub redo_stack: Seq<HistoryItemView<TV, EV, AV>>,
}

impl<T: View, E: View, A: View> View for HistoryStore<T, E, A> {
    type V = HistoryStoreView<T::V, E::V, A::V>;

    open spec fn view(&self) -> HistoryStoreView<T::V, E::V, A::V> {
        HistoryStoreView {
            undo_stack: view_all(self.undo_stack@),
            redo_stack: view_all(self.redo_stack@),
        }
    }
}

impl<TV, EV, AV> HistoryStoreView<TV, EV, AV> {
    /// The history after `item` was applied: it can be undone, and nothing
    /// can be done again.
    pub open spec fn spec_push(self, item: HistoryItemView<TV, EV, AV>) -> Self {
        HistoryStoreView { undo_stack: self.undo_stack.push(item), redo_stack: Seq::empty() }
    }

    /// The history after the last applied item was undone.
    pub open spec fn spec_undo(self) -> Self {
        if self.undo_stack.len() == 0 {
            self
        } else {
            HistoryStoreView {
                undo_stack: self.undo_stack.drop_last(),
                redo_stack: self.redo_stack.push(self.undo_stack.last().spec_history_invert()),
            }
        }
    }

    /// The history after the last undone item was done again.
    pub open spec fn spec_redo(self) -> Self {
        if self.redo_stack.len() == 0 {
            self
        } else {
            HistoryStoreView {
                undo_stack: self.undo_stack.push(self.redo_stack.last().spec_history_invert()),
                redo_stack: self.redo_stack.drop_last(),
            }
        }
    }
}

impl<T: GraphTraits, E: GraphTraits, A: GraphTraits> HistoryStore<T, E, A> {
    /// An empty history.
    pub fn new() -> (r: Self)
        ensures
            r@.undo_stack.len() == 0,
            r@.redo_stack.len() == 0,
    {
        HistoryStore { undo_stack: Vec::new(), redo_stack: Vec::new() }
    }

    /// Records a transaction that was applied.
    pub fn push(&mut self, item: HistoryItem<T, E, A>)
        ensures
            final(self)@ == old(self)@.spec_push(item@),
    {
        proof {
            lemma_view_all_push(self.undo_stack@, item);
        }
        self.undo_stack.push(item);
        self.redo_stack = Vec::new();
        assert(view_all(self.redo_stack@) =~= Seq::empty());
    }

    /// Takes the last applied transaction off and hands out the one that
    /// undoes it.
    pub fn undo(&mut self) -> (r: Option<HistoryItem<T, E, A>>)
        ensures
            final(self)@ == old(self)@.spec_undo(),
            match r {
                Some(item) => old(self)@.undo_stack.len() > 0 && item@ == old(
                    self,
                )@.undo_stack.last().spec_history_invert(),
                None => old(self)@.undo_stack.len() == 0,
            },
    {
        let ghost before = self.undo_stack@;
        match self.undo_stack.pop() {
            None => None,
            Some(last) => {
                assert(view_all(before.drop_last()) =~= view_all(before).drop_last());
                let item = last.history_invert();
                let copy = item.duplicate();
                proof {
                    lemma_view_all_push(self.redo_stack@, copy);
                }
                self.redo_stack.push(copy);
                Some(item)
            },
        }
    }

    /// Takes the last undone transaction off and hands out the one that
    /// does it again.
    pub fn redo(&mut self) -> (r: Option<HistoryItem<T, E, A>>)
        ensures
            final(self)@ == old(self)@.spec_redo(),
            match r {
                Some(item) => old(self)@.redo_stack.len() > 0 && item@ == old(
                    self,
                )@.redo_stack.last().spec_history_invert(),
                None => old(self)@.redo_stack.len() == 0,
            },
    {
        let ghost before = self.redo_stack@;
        match self.redo_stack.pop() {
            None => None,
            Some(last) => {
                assert(view_all(before.drop_last()) =~= view_all(before).drop_last());
                let item = last.history_invert();
                let copy = item.duplicate();
                proof {
                    lemma_view_all_push(self.undo_stack@, copy);
                }
                self.undo_stack.push(copy);
                Some(item)
            },
        }
    }
}

} // verus!
