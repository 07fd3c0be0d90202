//! Undoing a transaction.

use vstd::prelude::*;

use crate::blueprint::finalized_blueprint::FinalizedBlueprintView;
use crate::blueprint::update_node::items_of;
use crate::collections::seq_facts::unique_keys;
use crate::collections::seq_model::keys_of;
use crate::common::{EdgeDescriptor, GraphErrorView, Uid};
use crate::graph::reactive_node::last_action::ActionData;
use crate::graph::view_graph::GraphView;
use crate::laws::graphs::{
    lemma_add_nodes, lemma_delete_nodes, lemma_update_nodes, new_ids, update_ids,
};
use crate::laws::nodes::{
    lemma_from_new_pointwise, lemma_snapshot_pointwise, lemma_update_pointwise,
    law_update_round_trip,
};

verus! {

impl<TV, EV> FinalizedBlueprintView<TV, EV> {
    /// Whether the transaction can be applied to `graph` and undone again:
    /// it creates each node once, under its identifier, and none that the
    /// graph holds; it changes each node once, in a way that can be undone
    /// on the node as the graph holds it; and it deletes each node once,
    /// with a record of all that the graph holds of it.
    pub open spec fn fits<AV>(self, graph: GraphView<TV, EV, AV>) -> bool {
        &&& new_ids(self.new_nodes).no_duplicates()
        &&& forall|i: int|
            0 <= i < self.new_nodes.len() ==> (#[trigger] self.new_nodes[i]).0
                == self.new_nodes[i].1.id && graph.node(self.new_nodes[i].1.id) is None
        &&& update_ids(self.update_nodes).no_duplicates()
        &&& forall|i: int|
            0 <= i < self.update_nodes.len() ==> (graph.node(
                (#[trigger] self.update_nodes[i]).1.id,
            ) matches Some(n) ==> self.update_nodes[i].1.reversible_on(n))
        &&& unique_keys(self.delete_nodes)
        &&& forall|i: int|
            0 <= i < self.delete_nodes.len() ==> graph.node(
                (#[trigger] self.delete_nodes[i]).0,
            ) is Some && self.delete_nodes[i].1 == graph.node(
                self.delete_nodes[i].0,
            )->0.spec_snapshot()
    }
}

/// A transaction that fits a graph in order, applied and then undone by
/// its inverse, leaves the graph with the nodes that it had, each with the
/// identifier, payload, labels and edges that it had.
pub proof fn law_round_trip<TV, EV, AV>(
    graph: GraphView<TV, EV, AV>,
    blueprint: FinalizedBlueprintView<TV, EV>,
    action: ActionData<AV>,
    undo_action: ActionData<AV>,
    applied: GraphView<TV, EV, AV>,
    undone: GraphView<TV, EV, AV>,
)
    requires
        graph.in_order(),
        blueprint.fits(graph),
        graph.spec_apply(blueprint, action) == Ok::<GraphView<TV, EV, AV>, GraphErrorView>(applied),
        applied.spec_apply(blueprint.spec_invert_blueprint(), undo_action) == Ok::<
            GraphView<TV, EV, AV>,
            GraphErrorView,
        >(undone),
    ensures
        undone.in_order(),
        forall|id: Uid|
            match #[trigger] graph.node(id) {
                Some(n) => undone.node(id) is Some && undone.node(id)->0.same_content(n),
                None => undone.node(id) is None,
            },
{
    let inverse = blueprint.spec_invert_blueprint();
    let created = graph.spec_add_nodes(blueprint.new_nodes, action);
    let changed = created.spec_update_nodes(blueprint.update_nodes, action)->Ok_0;
    lemma_add_nodes(graph, blueprint.new_nodes, action);
    lemma_update_nodes(created, blueprint.update_nodes, action, changed);
    lemma_delete_nodes(changed, blueprint.delete_nodes, applied);

    let recreated = applied.spec_add_nodes(inverse.new_nodes, undo_action);
    let restored = recreated.spec_update_nodes(inverse.update_nodes, undo_action)->Ok_0;
    assert(new_ids(inverse.new_nodes) =~= keys_of(blueprint.delete_nodes)) by {
        assert forall|i: int| 0 <= i < blueprint.delete_nodes.len() implies new_ids(
            inverse.new_nodes,
        )[i] == keys_of(blueprint.delete_nodes)[i] by {
            let key = blueprint.delete_nodes[i].0;
            assert(graph.node(key) is Some);
            assert(graph.node(key)->0.id == key);
        }
    }
    assert(update_ids(inverse.update_nodes) =~= update_ids(blueprint.update_nodes));
    assert(keys_of(inverse.delete_nodes) =~= new_ids(blueprint.new_nodes)) by {
        assert forall|i: int| 0 <= i < blueprint.new_nodes.len() implies keys_of(
            inverse.delete_nodes,
        )[i] == new_ids(blueprint.new_nodes)[i] by {
            assert(blueprint.new_nodes[i].0 == blueprint.new_nodes[i].1.id);
        }
    }
    lemma_add_nodes(applied, inverse.new_nodes, undo_action);
    lemma_update_nodes(recreated, inverse.update_nodes, undo_action, restored);
    lemma_delete_nodes(restored, inverse.delete_nodes, undone);

    assert forall|id: Uid|
        match #[trigger] graph.node(id) {
            Some(n) => undone.node(id) is Some && undone.node(id)->0.same_content(n),
            None => undone.node(id) is None,
        } by {
        let is_new = new_ids(blueprint.new_nodes).contains(id);
        let is_changed = update_ids(blueprint.update_nodes).contains(id);
        let is_deleted = keys_of(blueprint.delete_nodes).contains(id);
        if is_new {
            let i = choose|i: int|
                0 <= i < new_ids(blueprint.new_nodes).len() && new_ids(blueprint.new_nodes)[i]
                    == id;
            assert(blueprint.new_nodes[i].1.id == id);
            assert(graph.node(id) is None);
            assert(undone.node(id) is None);
        } else {
            assert(undone.node(id) == restored.node(id));
            assert(created.node(id) == graph.node(id));
            if is_deleted {
                let i = choose|i: int|
                    0 <= i < keys_of(blueprint.delete_nodes).len() && keys_of(
                        blueprint.delete_nodes,
                    )[i] == id;
                assert(blueprint.delete_nodes[i].0 == id);
                let n = graph.node(id)->0;
                assert(n.in_order() && n.id == id);
                let record = inverse.new_nodes[i].1;
                assert(record == n.spec_snapshot().spec_history_invert());
                assert(record.id == id);
                let rebuilt = recreated.node(id)->0;
                assert(recreated.node(inverse.new_nodes[i].1.id) == Some(
                    crate::graph::reactive_node::read_reactive_node::NodeView::<
                        TV,
                        EV,
                        AV,
                    >::spec_from_new(inverse.new_nodes[i].1, undo_action),
                ));
                lemma_from_new_pointwise::<TV, EV, AV>(record, undo_action);
                lemma_snapshot_pointwise(n);
                assert(rebuilt.same_content(n)) by {
                    assert forall|e: EdgeDescriptor<EV>| rebuilt.holds(e) <==> n.holds(e) by {
                        assert(rebuilt.holds(e) <==> record.add_edges.contains(e));
                        assert(n.spec_snapshot().remove_edges.contains(e) <==> n.holds(e));
                    }
                }
                if is_changed {
                    let j = choose|j: int|
                        0 <= j < update_ids(blueprint.update_nodes).len() && update_ids(
                            blueprint.update_nodes,
                        )[j] == id;
                    let update = blueprint.update_nodes[j].1;
                    assert(update.id == id);
                    assert(inverse.update_nodes[j].1 == update.spec_history_invert());
                    assert(inverse.update_nodes[j].1.id == id);
                    assert(update.reversible_on(n));
                    lemma_update_pointwise(rebuilt, update.spec_history_invert(), undo_action);
                    let back = rebuilt.spec_update(update.spec_history_invert(), undo_action);
                    assert(restored.node(inverse.update_nodes[j].1.id) == Some(
                        recreated.node(inverse.update_nodes[j].1.id)->0.spec_update(
                            inverse.update_nodes[j].1,
                            undo_action,
                        ),
                    ));
                    assert(restored.node(id) == Some(back));
                    assert(back.same_content(n)) by {
                        assert forall|l: Seq<char>| back.labels.contains(l) <==> n.labels.contains(
                            l,
                        ) by {
                            assert(back.labels.contains(l) <==> (rebuilt.labels.contains(l)
                                || items_of(update.remove_labels).contains(l)) && !items_of(
                                update.add_labels,
                            ).contains(l));
                        }
                        assert forall|e: EdgeDescriptor<EV>| back.holds(e) <==> n.holds(e) by {
                            assert(back.holds(e) <==> (rebuilt.holds(e) && !items_of(
                                update.add_edges,
                            ).contains(e)) || items_of(update.remove_edges).contains(e));
                        }
                    }
                } else {
                    assert(restored.node(id) == recreated.node(id));
                }
            } else {
                assert(applied.node(id) == changed.node(id));
                assert(recreated.node(id) == applied.node(id));
                if is_changed {
                    let j = choose|j: int|
                        0 <= j < update_ids(blueprint.update_nodes).len() && update_ids(
                            blueprint.update_nodes,
                        )[j] == id;
                    let update = blueprint.update_nodes[j].1;
                    assert(update.id == id);
                    assert(created.node(blueprint.update_nodes[j].1.id) is Some);
                    let n = graph.node(id)->0;
                    assert(n.in_order() && n.id == id);
                    assert(update.reversible_on(n));
                    assert(changed.node(blueprint.update_nodes[j].1.id) == Some(
                        created.node(blueprint.update_nodes[j].1.id)->0.spec_update(
                            blueprint.update_nodes[j].1,
                            action,
                        ),
                    ));
                    assert(inverse.update_nodes[j].1 == update.spec_history_invert());
                    assert(inverse.update_nodes[j].1.id == id);
                    assert(restored.node(inverse.update_nodes[j].1.id) == Some(
                        recreated.node(inverse.update_nodes[j].1.id)->0.spec_update(
                            inverse.update_nodes[j].1,
                            undo_action,
                        ),
                    ));
                    law_update_round_trip(n, update, action, undo_action);
                } else {
                    assert(changed.node(id) == created.node(id));
                    assert(restored.node(id) == recreated.node(id));
                    if graph.node(id) is Some {
                        let n = graph.node(id)->0;
                        assert(n.same_content(n));
                    }
                }
            }
        }
    }
}

} // verus!
