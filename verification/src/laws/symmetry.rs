//! Every edge has its mirror.

use vstd::prelude::*;

use crate::blueprint::finalized_blueprint::FinalizedBlueprintView;
use crate::blueprint::finalized_update_node::FinalizedUpdateNodeView;
use crate::blueprint::new_node::NewNodeView;
use crate::blueprint::update_node::items_of;
use crate::collections::seq_model::keys_of;
use crate::common::edge_descriptor::lemma_invert_involution;
use crate::common::{EdgeDescriptor, GraphErrorView, Uid};
use crate::graph::reactive_node::last_action::ActionData;
use crate::graph::reactive_node::read_reactive_node::NodeView;
use crate::graph::view_graph::GraphView;
use crate::laws::graphs::{
    lemma_add_nodes, lemma_delete_nodes, lemma_update_nodes, new_ids, update_ids,
};
use crate::laws::nodes::{lemma_from_new_pointwise, lemma_update_pointwise};

verus! {

impl<TV, EV, AV> GraphView<TV, EV, AV> {
    /// Whether every edge that a node holds is stored on its host and has
    /// its mirror on the node at its other end.
    pub open spec fn symmetric(self) -> bool {
        forall|id: Uid, e: EdgeDescriptor<EV>|
            (self.node(id) is Some && #[trigger] self.node(id)->0.holds(e)) ==> e.host == id
                && self.node(e.target) is Some && self.node(e.target)->0.holds(e.spec_invert())
    }
}

impl<TV, EV> FinalizedBlueprintView<TV, EV> {
    /// The record with which the transaction creates node `id`.
    pub open spec fn created(self, id: Uid) -> Option<NewNodeView<TV, EV>> {
        if new_ids(self.new_nodes).contains(id) {
            Some(
                self.new_nodes[choose|i: int|
                    0 <= i < new_ids(self.new_nodes).len() && new_ids(self.new_nodes)[i] == id].1,
            )
        } else {
            None
        }
    }

    /// The change that the transaction makes to node `id`.
    pub open spec fn change(self, id: Uid) -> Option<FinalizedUpdateNodeView<TV, EV>> {
        if update_ids(self.update_nodes).contains(id) {
            Some(
                self.update_nodes[choose|i: int|
                    0 <= i < update_ids(self.update_nodes).len() && update_ids(
                        self.update_nodes,
                    )[i] == id].1,
            )
        } else {
            None
        }
    }

    /// Whether the transaction deletes node `id`.
    pub open spec fn deletes(self, id: Uid) -> bool {
        keys_of(self.delete_nodes).contains(id)
    }

    /// Whether the transaction is plain on `graph`: it creates each node
    /// once, under its identifier, and none that the graph holds, and it
    /// changes each node once, and only nodes that the graph holds.
    pub open spec fn plain_on<AV>(self, graph: GraphView<TV, EV, AV>) -> bool {
        &&& new_ids(self.new_nodes).no_duplicates()
        &&& forall|i: int|
            0 <= i < self.new_nodes.len() ==> (#[trigger] self.new_nodes[i]).0
                == self.new_nodes[i].1.id && graph.node(self.new_nodes[i].1.id) is None
        &&& update_ids(self.update_nodes).no_duplicates()
        &&& forall|i: int|
            0 <= i < self.update_nodes.len() ==> graph.node(
                (#[trigger] self.update_nodes[i]).1.id,
            ) is Some
    }

    /// The node under `id` once the transaction is applied.
    pub open spec fn node_after<AV>(
        self,
        graph: GraphView<TV, EV, AV>,
        action: ActionData<AV>,
        id: Uid,
    ) -> Option<NodeView<TV, EV, AV>> {
        if self.deletes(id) {
            None
        } else {
            match self.created(id) {
                Some(record) => Some(NodeView::<TV, EV, AV>::spec_from_new(record, action)),
                None => match graph.node(id) {
                    None => None,
                    Some(node) => match self.change(id) {
                        Some(update) => Some(node.spec_update(update, action)),
                        None => Some(node),
                    },
                },
            }
        }
    }

    /// Whether the transaction leaves node `id` with edge `e` that it did
    /// not have.
    pub open spec fn adds(self, id: Uid, e: EdgeDescriptor<EV>) -> bool {
        !self.deletes(id) && ((self.created(id) matches Some(record) && record.add_edges.contains(
            e,
        )) || (self.change(id) matches Some(update) && items_of(update.add_edges).contains(e)))
    }

    /// Whether the transaction takes edge `e` from node `id`, should the
    /// node hold it.
    pub open spec fn removes(self, id: Uid, e: EdgeDescriptor<EV>) -> bool {
        self.deletes(id) || (self.change(id) matches Some(update) && items_of(
            update.remove_edges,
        ).contains(e) && !items_of(update.add_edges).contains(e))
    }

    /// Whether the transaction treats both sides of every edge alike on
    /// `graph`: an edge that it adds is added to its host, and its mirror to
    /// the node at its other end; and where it takes an edge from a node of
    /// the graph, it takes the mirror from the node at the other end.
    pub open spec fn mirrored_on<AV>(self, graph: GraphView<TV, EV, AV>) -> bool {
        &&& forall|id: Uid, e: EdgeDescriptor<EV>| #[trigger]
            self.adds(id, e) ==> e.host == id && self.adds(e.target, e.spec_invert())
        &&& forall|id: Uid, e: EdgeDescriptor<EV>|
            (graph.node(id) is Some && graph.node(id)->0.holds(e) && #[trigger] self.removes(
                id,
                e,
            )) ==> self.removes(e.target, e.spec_invert())
    }
}

/// A plain transaction, applied to a graph in order, leaves the graph in
/// order and with these nodes: none where it deletes one; the node of its
/// record where it creates one; the changed node where it changes one; and
/// every other node as it was.
pub proof fn law_apply_pointwise<TV, EV, AV>(
    graph: GraphView<TV, EV, AV>,
    blueprint: FinalizedBlueprintView<TV, EV>,
    action: ActionData<AV>,
    applied: GraphView<TV, EV, AV>,
)
    requires
        graph.in_order(),
        blueprint.plain_on(graph),
        graph.spec_apply(blueprint, action) == Ok::<GraphView<TV, EV, AV>, GraphErrorView>(applied),
    ensures
        applied.in_order(),
        forall|id: Uid| #[trigger] applied.node(id) == blueprint.node_after(graph, action, id),
{
    let created = graph.spec_add_nodes(blueprint.new_nodes, action);
    let changed = created.spec_update_nodes(blueprint.update_nodes, action)->Ok_0;
    lemma_add_nodes(graph, blueprint.new_nodes, action);
    lemma_update_nodes(created, blueprint.update_nodes, action, changed);
    lemma_delete_nodes(changed, blueprint.delete_nodes, applied);
    assert forall|id: Uid| #[trigger] applied.node(id) == blueprint.node_after(
        graph,
        action,
        id,
    ) by {
        if !blueprint.deletes(id) {
            assert(applied.node(id) == changed.node(id));
            if new_ids(blueprint.new_nodes).contains(id) {
                let i = choose|i: int|
                    0 <= i < new_ids(blueprint.new_nodes).len() && new_ids(blueprint.new_nodes)[i]
                        == id;
                assert(blueprint.new_nodes[i].1.id == id);
                assert(graph.node(id) is None);
                if update_ids(blueprint.update_nodes).contains(id) {
                    let j = choose|j: int|
                        0 <= j < update_ids(blueprint.update_nodes).len() && update_ids(
                            blueprint.update_nodes,
                        )[j] == id;
                    assert(blueprint.update_nodes[j].1.id == id);
                    assert(graph.node(blueprint.update_nodes[j].1.id) is Some);
                }
                assert(changed.node(id) == created.node(id));
                assert(created.node(blueprint.new_nodes[i].1.id) == Some(
                    NodeView::<TV, EV, AV>::spec_from_new(blueprint.new_nodes[i].1, action),
                ));
            } else {
                assert(created.node(id) == graph.node(id));
                if update_ids(blueprint.update_nodes).contains(id) {
                    let j = choose|j: int|
                        0 <= j < update_ids(blueprint.update_nodes).len() && update_ids(
                            blueprint.update_nodes,
                        )[j] == id;
                    assert(blueprint.update_nodes[j].1.id == id);
                    assert(changed.node(blueprint.update_nodes[j].1.id) == Some(
                        created.node(blueprint.update_nodes[j].1.id)->0.spec_update(
                            blueprint.update_nodes[j].1,
                            action,
                        ),
                    ));
                } else {
                    assert(changed.node(id) == created.node(id));
                }
            }
        }
    }
}

/// Whether node `id` holds edge `e` once the transaction is applied: it
/// stays, and either gets the edge, or had it and keeps it.
pub proof fn lemma_holds_after<TV, EV, AV>(
    graph: GraphView<TV, EV, AV>,
    blueprint: FinalizedBlueprintView<TV, EV>,
    action: ActionData<AV>,
    id: Uid,
    e: EdgeDescriptor<EV>,
)
    requires
        graph.in_order(),
        blueprint.plain_on(graph),
    ensures
        (blueprint.node_after(graph, action, id) is Some && blueprint.node_after(
            graph,
            action,
            id,
        )->0.holds(e)) <==> (blueprint.adds(id, e) || (graph.node(id) is Some && graph.node(
            id,
        )->0.holds(e) && !blueprint.removes(id, e))),
{
    if !blueprint.deletes(id) {
        match blueprint.created(id) {
            Some(record) => {
                let i = choose|i: int|
                    0 <= i < new_ids(blueprint.new_nodes).len() && new_ids(blueprint.new_nodes)[i]
                        == id;
                assert(blueprint.new_nodes[i].1.id == id);
                assert(graph.node(id) is None);
                lemma_from_new_pointwise::<TV, EV, AV>(record, action);
                if blueprint.change(id) is Some {
                    let j = choose|j: int|
                        0 <= j < update_ids(blueprint.update_nodes).len() && update_ids(
                            blueprint.update_nodes,
                        )[j] == id;
                    assert(blueprint.update_nodes[j].1.id == id);
                    assert(graph.node(blueprint.update_nodes[j].1.id) is Some);
                }
            },
            None => {
                match graph.node(id) {
                    None => {
                        if blueprint.change(id) is Some {
                            let j = choose|j: int|
                                0 <= j < update_ids(blueprint.update_nodes).len() && update_ids(
                                    blueprint.update_nodes,
                                )[j] == id;
                            assert(blueprint.update_nodes[j].1.id == id);
                            assert(graph.node(blueprint.update_nodes[j].1.id) is Some);
                        }
                    },
                    Some(node) => {
                        match blueprint.change(id) {
                            Some(update) => {
                                lemma_update_pointwise(node, update, action);
                            },
                            None => {},
                        }
                    },
                }
            },
        }
    }
}

/// A plain transaction that treats both sides of every edge alike, applied
/// to a graph in order in which every edge has its mirror, leaves a graph
/// in which every edge has its mirror.
pub proof fn law_apply_keeps_symmetry<TV, EV, AV>(
    graph: GraphView<TV, EV, AV>,
    blueprint: FinalizedBlueprintView<TV, EV>,
    action: ActionData<AV>,
    applied: GraphView<TV, EV, AV>,
)
    requires
        graph.in_order(),
        graph.symmetric(),
        blueprint.plain_on(graph),
        blueprint.mirrored_on(graph),
        graph.spec_apply(blueprint, action) == Ok::<GraphView<TV, EV, AV>, GraphErrorView>(applied),
    ensures
        applied.in_order(),
        applied.symmetric(),
{
    law_apply_pointwise(graph, blueprint, action, applied);
    assert forall|id: Uid, e: EdgeDescriptor<EV>|
        (applied.node(id) is Some && #[trigger] applied.node(id)->0.holds(e)) implies e.host == id
        && applied.node(e.target) is Some && applied.node(e.target)->0.holds(
        e.spec_invert(),
    ) by {
        let mirror = e.spec_invert();
        lemma_invert_involution(e);
        assert(applied.node(id) == blueprint.node_after(graph, action, id));
        assert(applied.node(e.target) == blueprint.node_after(graph, action, e.target));
        lemma_holds_after(graph, blueprint, action, id, e);
        lemma_holds_after(graph, blueprint, action, e.target, mirror);
        if blueprint.adds(id, e) {
            assert(blueprint.adds(e.target, mirror));
        } else {
            let node = graph.node(id)->0;
            assert(node.holds(e) && !blueprint.removes(id, e));
            assert(graph.node(e.target) is Some && graph.node(e.target)->0.holds(mirror));
            if blueprint.removes(e.target, mirror) {
                assert(blueprint.removes(mirror.target, mirror.spec_invert()));
            }
        }
    }
}

} // verus!
