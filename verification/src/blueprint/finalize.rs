//! The last step of a transaction: what is staged is settled against the
//! graph and sealed, or refused with every error that was found.

use vstd::prelude::*;

use crate::blueprint::build_blueprint::{
    AllowedRenderEdgeSpecifier, BuildBlueprint, BuildBlueprintView,
};
use crate::blueprint::delete_node::{DeleteNode, DeleteNodeView};
use crate::blueprint::finalized_blueprint::{FinalizedBlueprint, FinalizedBlueprintView};
use crate::blueprint::finalized_update_node::{
    FinalizedUpdateNode, FinalizedUpdateNodeView, UpdateNodeReplacementData,
};
use crate::blueprint::new_node::TempId;
use crate::blueprint::render::{render_patterns, spec_render_patterns};
use crate::blueprint::update_node::{duplicate_set, UpdateNodeView};
use crate::collections::seq_model::{
    lemma_skip_none, lemma_skip_step, lemma_view_all_push, lookup, put, view_all,
};
use crate::collections::VecMap;
use crate::common::graph_error::decimal_text;
use crate::common::{GraphError, GraphErrorView, GraphTraits, GraphValue, Uid};
use crate::graph::reactive_node::read_reactive_node::NodeView;
use crate::graph::view_graph::ViewGraph;

verus! {

/// The error of replacing the payload of a node that the graph does not
/// hold.
pub open spec fn update_not_found(id: Uid) -> GraphErrorView {
    GraphErrorView::Blueprint("update_node: node not found, ID: "@ + decimal_text(id as nat))
}

/// The records of the deletions of `ids`, each with all that its node holds
/// in the graph, after those of `sealed`. A node that the graph does not
/// hold gets none.
pub open spec fn spec_snapshot_each<TV, EV, AV>(
    sealed: Seq<(Uid, DeleteNodeView<TV, EV>)>,
    graph: Seq<(Uid, NodeView<TV, EV, AV>)>,
    ids: Seq<Uid>,
) -> Seq<(Uid, DeleteNodeView<TV, EV>)>
    decreases ids.len(),
{
    if ids.len() == 0 {
        sealed
    } else {
        spec_snapshot_each(
            match lookup(graph, ids[0]) {
                Some(node) => put(sealed, ids[0], node.spec_snapshot()),
                None => sealed,
            },
            graph,
            ids.skip(1),
        )
    }
}

/// A change with the payload that it replaces taken from the graph.
pub open spec fn spec_seal<TV, EV, AV>(
    graph: Seq<(Uid, NodeView<TV, EV, AV>)>,
    id: Uid,
    update: UpdateNodeView<TV, EV>,
) -> FinalizedUpdateNodeView<TV, EV> {
    FinalizedUpdateNodeView {
        id: update.id,
        replacement_data: match (update.replacement_data, lookup(graph, id)) {
            (Some(data), Some(node)) => Some(
                UpdateNodeReplacementData { new_data: data, prev_data: node.data },
            ),
            _ => None,
        },
        add_labels: update.add_labels,
        remove_labels: update.remove_labels,
        add_edges: update.add_edges,
        remove_edges: update.remove_edges,
    }
}

/// The sealed changes and the errors found while sealing.
pub struct Sealed<TV, EV> {
    pub updates: Seq<(Uid, FinalizedUpdateNodeView<TV, EV>)>,
    pub errors: Seq<GraphErrorView>,
}

/// `sealed` with each of `updates` sealed, in order. A new payload for a
/// node that the graph does not hold is an error.
pub open spec fn spec_seal_each<TV, EV, AV>(
    sealed: Sealed<TV, EV>,
    graph: Seq<(Uid, NodeView<TV, EV, AV>)>,
    updates: Seq<(Uid, UpdateNodeView<TV, EV>)>,
) -> Sealed<TV, EV>
    decreases updates.len(),
{
    if updates.len() == 0 {
        sealed
    } else {
        let (id, update) = updates[0];
        spec_seal_each(
            Sealed {
                updates: put(sealed.updates, id, spec_seal(graph, id, update)),
                errors: if update.replacement_data is Some && lookup(graph, id) is None {
                    sealed.errors.push(update_not_found(id))
                } else {
                    sealed.errors
                },
            },
            graph,
            updates.skip(1),
        )
    }
}

impl<TV, EV> BuildBlueprintView<TV, EV> {
    /// The transaction that is sealed from what is staged, or all errors
    /// where there is any.
    pub open spec fn spec_emit<AV>(self, graph: Seq<(Uid, NodeView<TV, EV, AV>)>) -> Result<
        FinalizedBlueprintView<TV, EV>,
        Seq<GraphErrorView>,
    > {
        let sealed = spec_seal_each(
            Sealed { updates: Seq::empty(), errors: self.errors },
            graph,
            self.update_nodes,
        );
        if sealed.errors.len() > 0 {
            Err(sealed.errors)
        } else {
            Ok(
                FinalizedBlueprintView {
                    new_nodes: self.new_nodes,
                    update_nodes: sealed.updates,
                    delete_nodes: spec_snapshot_each(Seq::empty(), graph, self.delete_nodes),
                },
            )
        }
    }

    /// What is staged once deletions and removals are carried through:
    /// aliases resolved, deletions cascaded, queued removals settled, the
    /// ways into displaced nodes noted, and the ways in from displaced
    /// nodes held back.
    pub open spec fn spec_cascaded<AV>(self, graph: Seq<(Uid, NodeView<TV, EV, AV>)>) -> Self {
        self.spec_update_temp_ids().spec_finalize_delete_nodes(graph).spec_finalize_removed_edges(
            graph,
        ).spec_find_potential_entries(graph).spec_hold_back_entries()
    }

    /// What is staged once it is settled against the graph: deletions and
    /// removals carried through, and render edges chosen.
    pub open spec fn spec_settled_against<AV>(
        self,
        graph: Seq<(Uid, NodeView<TV, EV, AV>)>,
        specifiers: Option<Seq<AllowedRenderEdgeSpecifier<EV>>>,
        entry_point: Option<TempId>,
    ) -> Self {
        self.spec_cascaded(graph).spec_set_render_edges(
            graph,
            spec_render_patterns(specifiers),
            entry_point,
        )
    }

    /// The transaction that comes of what is staged, or all errors where
    /// there is any.
    pub open spec fn spec_finalize<AV>(
        self,
        graph: Seq<(Uid, NodeView<TV, EV, AV>)>,
        specifiers: Option<Seq<AllowedRenderEdgeSpecifier<EV>>>,
        entry_point: Option<TempId>,
    ) -> Result<FinalizedBlueprintView<TV, EV>, Seq<GraphErrorView>> {
        self.spec_settled_against(graph, specifiers, entry_point).spec_emit(graph)
    }
}

/// The views of optional specifiers.
pub open spec fn view_specifiers<E: View>(
    specifiers: Option<Vec<AllowedRenderEdgeSpecifier<E>>>,
) -> Option<Seq<AllowedRenderEdgeSpecifier<E::V>>> {
    match specifiers {
        Some(s) => Some(view_all(s@)),
        None => None,
    }
}

impl<T: GraphTraits, E: GraphTraits> BuildBlueprint<T, E> {
    /// Seals what is staged.
    pub fn emit<A: GraphTraits>(self, graph: &ViewGraph<T, E, A>) -> (r: Result<
        FinalizedBlueprint<T, E>,
        Vec<GraphError>,
    >)
        ensures
            match r {
                Ok(sealed) => self@.spec_emit(graph@.nodes) == Ok::<
                    FinalizedBlueprintView<T::V, E::V>,
                    Seq<GraphErrorView>,
                >(sealed@),
                Err(errors) => self@.spec_emit(graph@.nodes) == Err::<
                    FinalizedBlueprintView<T::V, E::V>,
                    Seq<GraphErrorView>,
                >(view_all(errors@)),
            },
    {
        let mut finalized_delete_nodes: VecMap<Uid, DeleteNode<T, E>> = VecMap::new();
        let mut i: usize = 0;
        proof {
            lemma_skip_none(self.delete_nodes@);
        }
        while i < self.delete_nodes.len()
            invariant
                i <= self.delete_nodes@.len(),
                spec_snapshot_each(Seq::empty(), graph@.nodes, self.delete_nodes@)
                    == spec_snapshot_each(
                    finalized_delete_nodes@,
                    graph@.nodes,
                    self.delete_nodes@.skip(i as int),
                ),
            decreases self.delete_nodes@.len() - i,
        {
            proof {
                lemma_skip_step(self.delete_nodes@, i as int);
            }
            let delete_id = *self.delete_nodes.get(i);
            match graph.nodes.get(&delete_id) {
                Some(node) => {
                    finalized_delete_nodes.insert(
                        delete_id,
                        DeleteNode::from_read_reactive_node(node),
                    );
                },
                None => {},
            }
            i += 1;
        }
        let mut errors = self.errors;
        let mut finalized_update_nodes: VecMap<Uid, FinalizedUpdateNode<T, E>> = VecMap::new();
        let ghost begin = Sealed::<T::V, E::V> { updates: Seq::empty(), errors: view_all(errors@) };
        let mut i: usize = 0;
        proof {
            lemma_skip_none(self.update_nodes@);
        }
        while i < self.update_nodes.len()
            invariant
                i <= self.update_nodes@.len(),
                begin == (Sealed::<T::V, E::V> { updates: Seq::empty(), errors: self@.errors }),
                spec_seal_each(begin, graph@.nodes, self.update_nodes@) == spec_seal_each(
                    Sealed { updates: finalized_update_nodes@, errors: view_all(errors@) },
                    graph@.nodes,
                    self.update_nodes@.skip(i as int),
                ),
            decreases self.update_nodes@.len() - i,
        {
            proof {
                lemma_skip_step(self.update_nodes@, i as int);
            }
            let id = *self.update_nodes.key_at(i);
            let update_node = self.update_nodes.value_at(i);
            let finalized_replacement_data = match &update_node.replacement_data {
                Some(replacement_data) => match graph.nodes.get(&id) {
                    Some(node) => Some(
                        UpdateNodeReplacementData {
                            new_data: replacement_data.duplicate(),
                            prev_data: node.data.duplicate(),
                        },
                    ),
                    None => {
                        let error = GraphError::blueprint_about(
                            "update_node: node not found, ID: ",
                            id,
                        );
                        proof {
                            lemma_view_all_push(errors@, error);
                        }
                        errors.push(error);
                        None
                    },
                },
                None => None,
            };
            finalized_update_nodes.insert(
                id,
                FinalizedUpdateNode {
                    replacement_data: finalized_replacement_data,
                    add_edges: duplicate_set(&update_node.add_edges),
                    add_labels: duplicate_set(&update_node.add_labels),
                    id: update_node.id,
                    remove_edges: duplicate_set(&update_node.remove_edges),
                    remove_labels: duplicate_set(&update_node.remove_labels),
                },
            );
            i += 1;
        }
        if errors.len() > 0 {
            return Err(errors);
        }
        Ok(
            FinalizedBlueprint {
                delete_nodes: finalized_delete_nodes,
                new_nodes: self.new_nodes,
                update_nodes: finalized_update_nodes,
            },
        )
    }

    /// Settles what is staged against `graph` and seals it. An edge type
    /// and direction earlier in `render_edge_types` is preferred for
    /// rendering; without any, every edge that leaves a node may render.
    /// With `entry_point_temp_id` the node behind that alias is the root.
    /// The graph is only read: where the result is an error, nothing has
    /// happened to it.
    pub fn finalize<A: GraphTraits>(
        self,
        graph: &ViewGraph<T, E, A>,
        render_edge_types: Option<Vec<AllowedRenderEdgeSpecifier<E>>>,
        entry_point_temp_id: Option<TempId>,
    ) -> (r: Result<FinalizedBlueprint<T, E>, Vec<GraphError>>)
        ensures
            match r {
                Ok(sealed) => self@.spec_finalize(
                    graph@.nodes,
                    view_specifiers(render_edge_types),
                    entry_point_temp_id,
                ) == Ok::<FinalizedBlueprintView<T::V, E::V>, Seq<GraphErrorView>>(sealed@),
                Err(errors) => self@.spec_finalize(
                    graph@.nodes,
                    view_specifiers(render_edge_types),
                    entry_point_temp_id,
                ) == Err::<FinalizedBlueprintView<T::V, E::V>, Seq<GraphErrorView>>(
                    view_all(errors@),
                ),
            },
    {
        let valid_render_edge_finders = render_patterns(&render_edge_types);
        let mut staged = self;
        staged.update_temp_ids();
        staged.finalize_delete_nodes(graph);
        staged.finalize_removed_edges(graph);
        staged.find_potential_entries_for_displaced_nodes(graph);
        staged.hold_back_entries();
        staged.set_render_edges(&valid_render_edge_finders, entry_point_temp_id, graph);
        staged.emit(graph)
    }
}

} // verus!
