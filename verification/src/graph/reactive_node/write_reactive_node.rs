//! A node of the committed graph as the store changes it.

use vstd::prelude::*;

use crate::blueprint::finalized_update_node::FinalizedUpdateNode;
use crate::collections::VecSet;
use crate::common::{EdgeDescriptor, GraphTraits, GraphValue, Uid};
use crate::graph::reactive_node::last_action::{ActionData, LastAction};
use crate::graph::reactive_node::read_reactive_node::{NodeView, ReadReactiveNode};
use crate::graph::reactive_node::utils::{displace_edges, place_edges, EdgeMap};

verus! {

/// The writable side of a node. It holds what the node holds; a reader sees
/// a change once the store has taken the node back with [`Self::into_read`].
#[derive(Debug, Clone)]
pub struct WriteReactiveNode<T, E, A> {
    pub id: Uid,
    pub data: T,
    pub labels: VecSet<String>,
    pub incoming_edges: EdgeMap<E>,
    pub outgoing_edges: EdgeMap<E>,
    pub last_action: LastAction<T, E, A>,
}

impl<T: View, E: View, A: View> View for WriteReactiveNode<T, E, A> {
    type V = NodeView<T::V, E::V, A::V>;

    open spec fn view(&self) -> NodeView<T::V, E::V, A::V> {
        NodeView {
            id: self.id,
            data: self.data@,
            labels: self.labels@,
            incoming_edges: self.incoming_edges@,
            outgoing_edges: self.outgoing_edges@,
            last_action: self.last_action@,
        }
    }
}

impl<T: GraphTraits, E: GraphTraits, A: GraphTraits> WriteReactiveNode<T, E, A> {
    /// The writable side of `node`.
    pub fn from_read(node: ReadReactiveNode<T, E, A>) -> (r: Self)
        ensures
            r@ == node@,
    {
        WriteReactiveNode {
            id: node.id,
            data: node.data,
            labels: node.labels,
            incoming_edges: node.incoming_edges,
            outgoing_edges: node.outgoing_edges,
            last_action: node.last_action,
        }
    }

    /// The node as its readers see it from now on.
    pub fn into_read(self) -> (r: ReadReactiveNode<T, E, A>)
        ensures
            r@ == self@,
    {
        ReadReactiveNode {
            id: self.id,
            data: self.data,
            labels: self.labels,
            incoming_edges: self.incoming_edges,
            outgoing_edges: self.outgoing_edges,
            last_action: self.last_action,
        }
    }

    /// Applies one change to the node.
    pub fn update(&mut self, update_node: FinalizedUpdateNode<T, E>, action_data: ActionData<A>)
        ensures
            final(self)@ == old(self)@.spec_update(update_node@, action_data@),
    {
        let ghost start = self@;
        self.last_action =
        LastAction { action_data, update_info: Some(update_node.duplicate()) };
        match update_node.replacement_data {
            Some(data) => {
                self.data = data.new_data;
            },
            None => {},
        }
        match &update_node.add_labels {
            Some(labels) => {
                self.add_labels(labels);
            },
            None => {
                assert(crate::collections::seq_model::union_seq(
                    start.labels,
                    Seq::<Seq<char>>::empty(),
                ) == start.labels);
            },
        }
        match &update_node.remove_labels {
            Some(labels) => {
                self.remove_labels(labels);
            },
            None => {
                proof {
                    crate::collections::seq_model::lemma_minus_nothing(self@.labels);
                }
            },
        }
        match &update_node.remove_edges {
            Some(edges) => {
                self.remove_edges(edges);
            },
            None => {},
        }
        match &update_node.add_edges {
            Some(edges) => {
                self.add_edges(edges);
            },
            None => {},
        }
    }

    fn add_labels(&mut self, labels: &VecSet<String>)
        ensures
            final(self)@ == (NodeView {
                labels: crate::collections::seq_model::union_seq(old(self)@.labels, labels@),
                ..old(self)@
            }),
    {
        self.labels = self.labels.union(labels);
    }

    fn remove_labels(&mut self, labels: &VecSet<String>)
        ensures
            final(self)@ == (NodeView {
                labels: crate::collections::seq_model::minus_seq(old(self)@.labels, labels@),
                ..old(self)@
            }),
    {
        self.labels = self.labels.relative_complement(labels);
    }

    fn remove_edges(&mut self, edges: &VecSet<EdgeDescriptor<E>>)
        ensures
            final(self)@ == old(self)@.with_edges(old(self)@.edges().displace_all(edges@)),
    {
        displace_edges(&mut self.incoming_edges, &mut self.outgoing_edges, edges);
    }

    fn add_edges(&mut self, edges: &VecSet<EdgeDescriptor<E>>)
        ensures
            final(self)@ == old(self)@.with_edges(old(self)@.edges().place_all(edges@)),
    {
        place_edges(&mut self.incoming_edges, &mut self.outgoing_edges, edges);
    }
}

} // verus!
