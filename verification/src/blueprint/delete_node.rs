//! A node that a transaction removes, with all it held.

use vstd::prelude::*;

use crate::blueprint::new_node::{NewNode, NewNodeView};
use crate::collections::VecSet;
use crate::common::{EdgeDescriptor, GraphTraits, Uid};

verus! {

/// The full state of a node at the time it is deleted: enough to create it
/// again.
#[derive(Debug, Clone)]
pub struct DeleteNode<T, E> {
    pub id: Uid,
    pub remove_edges: VecSet<EdgeDescriptor<E>>,
    pub remove_labels: VecSet<String>,
    pub data: T,
}

/// What a [`DeleteNode`] holds.
pub struct DeleteNodeView<TV, EV> {
    pub id: Uid,
    pub remove_edges: Seq<EdgeDescriptor<EV>>,
    pub remove_labels: Seq<Seq<char>>,
    pub data: TV,
}

impl<T: View, E: View> View for DeleteNode<T, E> {
    type V = DeleteNodeView<T::V, E::V>;

    open spec fn view(&self) -> DeleteNodeView<T::V, E::V> {
        DeleteNodeView {
            id: self.id,
            remove_edges: self.remove_edges@,
            remove_labels: self.remove_labels@,
            data: self.data@,
        }
    }
}

impl<TV, EV> DeleteNodeView<TV, EV> {
    /// The creation that undoes this deletion.
    pub open spec fn spec_history_invert(self) -> NewNodeView<TV, EV> {
        NewNodeView {
            id: self.id,
            temp_id: None,
            data: self.data,
            add_labels: self.remove_labels,
            add_edges: self.remove_edges,
        }
    }
}

impl<T: GraphTraits, E: GraphTraits> DeleteNode<T, E> {
    pub fn new(
        id: Uid,
        edges: VecSet<EdgeDescriptor<E>>,
        labels: VecSet<String>,
        data: T,
    ) -> (r: Self)
        ensures
            r@ == (DeleteNodeView {
                id,
                remove_edges: edges@,
                remove_labels: labels@,
                data: data@,
            }),
    {
        DeleteNode { id, remove_edges: edges, remove_labels: labels, data }
    }

    /// A record with the same contents.
    pub fn duplicate(&self) -> (r: Self)
        ensures
            r@ == self@,
    {
        DeleteNode {
            id: self.id,
            remove_edges: self.remove_edges.duplicate(),
            remove_labels: self.remove_labels.duplicate(),
            data: self.data.duplicate(),
        }
    }

    /// The creation that undoes this deletion.
    pub fn history_invert(&self) -> (r: NewNode<T, E>)
        ensures
            r@ == self@.spec_history_invert(),
    {
        NewNode {
            id: self.id,
            temp_id: None,
            add_edges: self.remove_edges.duplicate(),
            add_labels: self.remove_labels.duplicate(),
            data: self.data.duplicate(),
        }
    }
}

} // verus!
