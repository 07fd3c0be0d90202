//! A change to a node, with what it replaces.

use vstd::prelude::*;

use crate::blueprint::update_node::{duplicate_set, view_opt};
use crate::collections::VecSet;
use crate::common::{EdgeDescriptor, GraphTraits, Uid};

verus! {

/// A new payload together with the one it replaces.
#[derive(Debug, Clone, PartialEq, Eq, Hash)]
pub struct UpdateNodeReplacementData<T> {
    pub new_data: T,
    pub prev_data: T,
}

impl<T: View> View for UpdateNodeReplacementData<T> {
    type V = UpdateNodeReplacementData<T::V>;

    open spec fn view(&self) -> UpdateNodeReplacementData<T::V> {
        UpdateNodeReplacementData { new_data: self.new_data@, prev_data: self.prev_data@ }
    }
}

impl<T> UpdateNodeReplacementData<T> {
    /// The replacement the other way round.
    pub open spec fn spec_swap(self) -> Self {
        UpdateNodeReplacementData { new_data: self.prev_data, prev_data: self.new_data }
    }
}

#[derive(Debug, Clone)]
pub struct FinalizedUpdateNode<T, E> {
    pub id: Uid,
    pub replacement_data: Option<UpdateNodeReplacementData<T>>,
    pub add_labels: Option<VecSet<String>>,
    pub remove_labels: Option<VecSet<String>>,
    pub add_edges: Option<VecSet<EdgeDescriptor<E>>>,
    pub remove_edges: Option<VecSet<EdgeDescriptor<E>>>,
}

/// What a [`FinalizedUpdateNode`] holds.
pub struct FinalizedUpdateNodeView<TV, EV> {
    pub id: Uid,
    pub replacement_data: Option<UpdateNodeReplacementData<TV>>,
    pub add_labels: Option<Seq<Seq<char>>>,
    pub remove_labels: Option<Seq<Seq<char>>>,
    pub add_edges: Option<Seq<EdgeDescriptor<EV>>>,
    pub remove_edges: Option<Seq<EdgeDescriptor<EV>>>,
}

impl<T: View, E: View> View for FinalizedUpdateNode<T, E> {
    type V = FinalizedUpdateNodeView<T::V, E::V>;

    open spec fn view(&self) -> FinalizedUpdateNodeView<T::V, E::V> {
        FinalizedUpdateNodeView {
            id: self.id,
            replacement_data: view_opt(self.replacement_data),
            add_labels: view_opt(self.add_labels),
            remove_labels: view_opt(self.remove_labels),
            add_edges: view_opt(self.add_edges),
            remove_edges: view_opt(self.remove_edges),
        }
    }
}

impl<TV, EV> FinalizedUpdateNodeView<TV, EV> {
    /// The change that undoes this one.
    pub open spec fn spec_history_invert(self) -> Self {
        FinalizedUpdateNodeView {
            id: self.id,
            replacement_data: match self.replacement_data {
                Some(d) => Some(d.spec_swap()),
                None => None,
            },
            add_labels: self.remove_labels,
            remove_labels: self.add_labels,
            add_edges: self.remove_edges,
            remove_edges: self.add_edges,
        }
    }
}

impl<T: GraphTraits, E: GraphTraits> FinalizedUpdateNode<T, E> {
    /// A change with the same contents.
    pub fn duplicate(&self) -> (r: Self)
        ensures
            r@ == self@,
    {
        FinalizedUpdateNode {
            id: self.id,
            replacement_data: match &self.replacement_data {
                Some(d) => Some(
                    UpdateNodeReplacementData {
                        new_data: d.new_data.duplicate(),
                        prev_data: d.prev_data.duplicate(),
                    },
                ),
                None => None,
            },
            add_labels: duplicate_set(&self.add_labels),
            remove_labels: duplicate_set(&self.remove_labels),
            add_edges: duplicate_set(&self.add_edges),
            remove_edges: duplicate_set(&self.remove_edges),
        }
    }

    /// The change that undoes this one: additions and removals trade
    /// places, and so do the new payload and the old.
    pub fn history_invert(&self) -> (r: Self)
        ensures
            r@ == self@.spec_history_invert(),
    {
        FinalizedUpdateNode {
            id: self.id,
            replacement_data: match &self.replacement_data {
                Some(d) => Some(
                    UpdateNodeReplacementData {
                        new_data: d.prev_data.duplicate(),
                        prev_data: d.new_data.duplicate(),
                    },
                ),
                None => None,
            },
            add_labels: duplicate_set(&self.remove_labels),
            remove_labels: duplicate_set(&self.add_labels),
            add_edges: duplicate_set(&self.remove_edges),
            remove_edges: duplicate_set(&self.add_edges),
        }
    }
}

} // verus!
