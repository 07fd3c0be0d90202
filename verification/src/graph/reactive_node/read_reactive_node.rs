//! A node of the committed graph as its readers see it.

use vstd::prelude::*;

use crate::blueprint::delete_node::{DeleteNode, DeleteNodeView};
use crate::blueprint::new_node::{render_parent_pattern, NewNodeView};
use crate::blueprint::update_node::items_of;
use crate::collections::seq_model::{flatten_into, minus_seq, union_seq};
use crate::collections::uid_index::uid_set_contains;
use crate::collections::VecSet;
use crate::common::{
    EdgeDescriptor, EdgeDir, EdgeFinder, EdgeFinderView, GraphTraits, GraphValue, Uid,
};
use crate::graph::reactive_node::last_action::{ActionData, LastAction, LastActionView};
use crate::graph::reactive_node::utils::{
    duplicate_map, flatten_more, search_map_more, spec_search_map, EdgeMap, EdgeMaps,
};
use crate::blueprint::finalized_update_node::FinalizedUpdateNodeView;

verus! {

/// A node with its payload, its labels and its edges: those that arrive in
/// `incoming_edges`, those that leave in `outgoing_edges`.
#[derive(Debug, Clone)]
pub struct ReadReactiveNode<T, E, A> {
    pub id: Uid,
    pub data: T,
    pub labels: VecSet<String>,
    pub incoming_edges: EdgeMap<E>,
    pub outgoing_edges: EdgeMap<E>,
    pub last_action: LastAction<T, E, A>,
}

/// What a node holds.
pub struct NodeView<TV, EV, AV> {
    pub id: Uid,
    pub data: TV,
    pub labels: Seq<Seq<char>>,
    pub incoming_edges: Seq<(EV, Seq<EdgeDescriptor<EV>>)>,
    pub outgoing_edges: Seq<(EV, Seq<EdgeDescriptor<EV>>)>,
    pub last_action: LastActionView<TV, EV, AV>,
}

impl<T: View, E: View, A: View> View for ReadReactiveNode<T, E, A> {
    type V = NodeView<T::V, E::V, A::V>;

    open spec fn view(&self) -> NodeView<T::V, E::V, A::V> {
        NodeView {
            id: self.id,
            data: self.data@,
            labels: self.labels@,
            incoming_edges: self.incoming_edges@,
            outgoing_edges: self.outgoing_edges@,
            last_action: self.last_action@,
        }
    }
}

impl<TV, EV, AV> NodeView<TV, EV, AV> {
    /// Whether a search with `finder` looks at the edges that arrive.
    pub open spec fn searches_incoming(finder: EdgeFinderView<EV>) -> bool {
        finder.dir is None || finder.dir == Some(EdgeDir::Recv)
    }

    /// Whether a search with `finder` looks at the edges that leave.
    pub open spec fn searches_outgoing(finder: EdgeFinderView<EV>) -> bool {
        finder.dir is None || finder.dir == Some(EdgeDir::Emit)
    }

    /// What a search with `finder` finds among the edges that arrive.
    pub open spec fn spec_found_incoming(self, finder: EdgeFinderView<EV>) -> Seq<
        EdgeDescriptor<EV>,
    > {
        if Self::searches_incoming(finder) {
            spec_search_map(Seq::empty(), self.incoming_edges, finder)
        } else {
            Seq::empty()
        }
    }

    /// What a search with `finder` finds on this node: nothing where the
    /// pattern names other hosts; what arrives, and, unless that settles
    /// it, what leaves.
    pub open spec fn spec_search_for_edge(self, finder: EdgeFinderView<EV>) -> Option<
        Seq<EdgeDescriptor<EV>>,
    > {
        let incoming = self.spec_found_incoming(finder);
        if finder.host is Some && !finder.host->0.contains(self.id) {
            None
        } else if (incoming.len() > 0 && finder.match_all is None) || finder.match_all == Some(
            false,
        ) {
            Some(incoming)
        } else {
            let both = if Self::searches_outgoing(finder) {
                spec_search_map(incoming, self.outgoing_edges, finder)
            } else {
                incoming
            };
            if both.len() == 0 {
                None
            } else {
                Some(both)
            }
        }
    }

    /// Every edge of the node: those that leave, then those that arrive.
    pub open spec fn spec_all_edges(self) -> Seq<EdgeDescriptor<EV>> {
        union_seq(
            flatten_into(Seq::empty(), self.outgoing_edges),
            flatten_into(Seq::empty(), self.incoming_edges),
        )
    }

    /// The edges of the node.
    pub open spec fn edges(self) -> EdgeMaps<EV> {
        EdgeMaps { incoming: self.incoming_edges, outgoing: self.outgoing_edges }
    }

    /// The node with other edges.
    pub open spec fn with_edges(self, edges: EdgeMaps<EV>) -> Self {
        NodeView { incoming_edges: edges.incoming, outgoing_edges: edges.outgoing, ..self }
    }

    /// The node after a change: the action recorded, the payload replaced,
    /// labels added and then removed, edges removed and then added.
    pub open spec fn spec_update(
        self,
        update: FinalizedUpdateNodeView<TV, EV>,
        action: ActionData<AV>,
    ) -> Self {
        (NodeView {
            last_action: LastActionView { action_data: action, update_info: Some(update) },
            data: match update.replacement_data {
                Some(d) => d.new_data,
                None => self.data,
            },
            labels: minus_seq(
                union_seq(self.labels, items_of(update.add_labels)),
                items_of(update.remove_labels),
            ),
            ..self
        }).with_edges(
            self.edges().displace_all(items_of(update.remove_edges)).place_all(
                items_of(update.add_edges),
            ),
        )
    }

    /// The node that a creation describes, made by `action`.
    pub open spec fn spec_from_new(node: NewNodeView<TV, EV>, action: ActionData<AV>) -> Self {
        (NodeView {
            id: node.id,
            data: node.data,
            labels: union_seq(Seq::empty(), node.add_labels),
            incoming_edges: Seq::empty(),
            outgoing_edges: Seq::empty(),
            last_action: LastActionView { action_data: action, update_info: None },
        }).with_edges(EdgeMaps::none().place_all(node.add_edges))
    }

    /// The record that deletes this node and keeps all it held.
    pub open spec fn spec_snapshot(self) -> DeleteNodeView<TV, EV> {
        DeleteNodeView {
            id: self.id,
            remove_edges: self.spec_all_edges(),
            remove_labels: self.labels,
            data: self.data,
        }
    }
}

impl<T: GraphTraits, E: GraphTraits, A: GraphTraits> ReadReactiveNode<T, E, A> {
    /// A node with the same contents.
    pub fn duplicate(&self) -> (r: Self)
        ensures
            r@ == self@,
    {
        ReadReactiveNode {
            id: self.id,
            data: self.data.duplicate(),
            labels: self.labels.duplicate(),
            incoming_edges: duplicate_map(&self.incoming_edges),
            outgoing_edges: duplicate_map(&self.outgoing_edges),
            last_action: self.last_action.duplicate(),
        }
    }

    /// The edges of this node that `edge_finder` matches: all of them, or
    /// the first; `None` where there is none.
    pub fn search_for_edge(&self, edge_finder: &EdgeFinder<E>) -> (r: Option<
        VecSet<EdgeDescriptor<E>>,
    >)
        ensures
            crate::blueprint::update_node::view_opt(r) == self@.spec_search_for_edge(
                edge_finder@,
            ),
    {
        let named_elsewhere = match &edge_finder.host {
            Some(hosts) => !uid_set_contains(hosts, self.id),
            None => false,
        };
        if named_elsewhere {
            return None;
        }
        let mut found_edges: VecSet<EdgeDescriptor<E>> = VecSet::new();
        let search_incoming = match edge_finder.dir {
            None => true,
            Some(d) => d == EdgeDir::Recv,
        };
        let search_outgoing = match edge_finder.dir {
            None => true,
            Some(d) => d == EdgeDir::Emit,
        };
        if search_incoming {
            search_map_more(&mut found_edges, edge_finder, &self.incoming_edges);
        }
        let settled = match edge_finder.match_all {
            None => !found_edges.is_empty(),
            Some(all) => !all,
        };
        if settled {
            return Some(found_edges);
        }
        if search_outgoing {
            search_map_more(&mut found_edges, edge_finder, &self.outgoing_edges);
        }
        if found_edges.is_empty() {
            return None;
        }
        Some(found_edges)
    }

    /// The edge through which this node is rendered.
    pub fn get_render_edge(&self) -> (r: EdgeDescriptor<E>)
        requires
            self@.spec_search_for_edge(render_parent_pattern()) is Some,
        ensures
            r@ == self@.spec_search_for_edge(render_parent_pattern())->0[0],
    {
        let finder = EdgeFinder::<E>::new().render_info(Some(EdgeDir::Recv));
        let found = self.search_for_edge(&finder).unwrap();
        found.get(0).duplicate()
    }

    /// Every edge of the node, each once.
    pub fn convert_all_edges_to_hashset(&self) -> (r: VecSet<EdgeDescriptor<E>>)
        ensures
            r@ == self@.spec_all_edges(),
    {
        let outgoing = flatten_more(VecSet::new(), &self.outgoing_edges);
        let incoming = flatten_more(VecSet::new(), &self.incoming_edges);
        outgoing.union(&incoming)
    }
}

impl<T: GraphTraits, E: GraphTraits> DeleteNode<T, E> {
    /// The record that deletes `reactive_node` and keeps all it held.
    pub fn from_read_reactive_node<A: GraphTraits>(
        reactive_node: &ReadReactiveNode<T, E, A>,
    ) -> (r: Self)
        ensures
            r@ == reactive_node@.spec_snapshot(),
    {
        DeleteNode {
            id: reactive_node.id,
            remove_edges: reactive_node.convert_all_edges_to_hashset(),
            remove_labels: reactive_node.labels.duplicate(),
            data: reactive_node.data.duplicate(),
        }
    }
}

} // verus!
