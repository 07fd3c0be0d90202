//! What a change does to one node, and what undoing it does.

use vstd::prelude::*;

use crate::blueprint::finalized_update_node::FinalizedUpdateNodeView;
use crate::blueprint::new_node::NewNodeView;
use crate::blueprint::update_node::items_of;
use crate::collections::seq_facts::lemma_minus_members;
use crate::collections::seq_model::{lemma_union_members, union_seq};
use crate::common::EdgeDescriptor;
use crate::graph::reactive_node::last_action::ActionData;
use crate::graph::reactive_node::read_reactive_node::NodeView;
use crate::graph::reactive_node::utils::EdgeMaps;
use crate::laws::edges::{lemma_all_edges_are_held, lemma_displace_all, lemma_place_all};
use crate::laws::merge::same_members;

verus! {

impl<TV, EV, AV> NodeView<TV, EV, AV> {
    /// Whether the node holds `edge`.
    pub open spec fn holds(self, edge: EdgeDescriptor<EV>) -> bool {
        self.edges().holds(edge)
    }

    /// Whether the edges of the node are in order: one list for each type
    /// and direction, without duplicates.
    pub open spec fn in_order(self) -> bool {
        self.edges().in_order()
    }

    /// Whether the two nodes have the same identifier, payload, labels and
    /// edges.
    pub open spec fn same_content(self, other: Self) -> bool {
        &&& self.id == other.id
        &&& self.data == other.data
        &&& same_members(self.labels, other.labels)
        &&& forall|e: EdgeDescriptor<EV>| self.holds(e) <==> other.holds(e)
    }
}

impl<TV, EV> FinalizedUpdateNodeView<TV, EV> {
    /// Whether the change can be undone on `node`: it names the payload
    /// that it replaces, adds no label that the node has and removes none
    /// that it lacks, removes no edge that the node lacks and adds none
    /// that the node would still hold after the removals.
    pub open spec fn reversible_on<AV>(self, node: NodeView<TV, EV, AV>) -> bool {
        &&& self.replacement_data matches Some(d) ==> d.prev_data == node.data
        &&& forall|l: Seq<char>| #[trigger]
            items_of(self.add_labels).contains(l) ==> !node.labels.contains(l)
        &&& forall|l: Seq<char>| #[trigger]
            items_of(self.remove_labels).contains(l) ==> node.labels.contains(l)
        &&& forall|e: EdgeDescriptor<EV>| #[trigger]
            items_of(self.remove_edges).contains(e) ==> node.holds(e)
        &&& forall|e: EdgeDescriptor<EV>| #[trigger]
            items_of(self.add_edges).contains(e) ==> !node.holds(e) || items_of(
                self.remove_edges,
            ).contains(e)
    }
}

/// A changed node holds the new payload where there is one, the labels it
/// had and those added, but for those removed, and the edges it had but for
/// those removed, and those added.
pub proof fn lemma_update_pointwise<TV, EV, AV>(
    node: NodeView<TV, EV, AV>,
    update: FinalizedUpdateNodeView<TV, EV>,
    action: ActionData<AV>,
)
    requires
        node.in_order(),
    ensures
        node.spec_update(update, action).in_order(),
        node.spec_update(update, action).id == node.id,
        node.spec_update(update, action).data == (match update.replacement_data {
            Some(d) => d.new_data,
            None => node.data,
        }),
        forall|l: Seq<char>| #[trigger]
            node.spec_update(update, action).labels.contains(l) <==> (node.labels.contains(l)
                || items_of(update.add_labels).contains(l)) && !items_of(
                update.remove_labels,
            ).contains(l),
        forall|e: EdgeDescriptor<EV>| #[trigger]
            node.spec_update(update, action).holds(e) <==> (node.holds(e) && !items_of(
                update.remove_edges,
            ).contains(e)) || items_of(update.add_edges).contains(e),
{
    let after = node.spec_update(update, action);
    let grown = union_seq(node.labels, items_of(update.add_labels));
    lemma_union_members(node.labels, items_of(update.add_labels));
    assert forall|l: Seq<char>| #[trigger]
        after.labels.contains(l) <==> (node.labels.contains(l) || items_of(
            update.add_labels,
        ).contains(l)) && !items_of(update.remove_labels).contains(l) by {
        lemma_minus_members(grown, items_of(update.remove_labels), l);
    }
    let cut = node.edges().displace_all(items_of(update.remove_edges));
    lemma_displace_all(node.edges(), items_of(update.remove_edges));
    lemma_place_all(cut, items_of(update.add_edges));
    assert(after.edges() == cut.place_all(items_of(update.add_edges)));
    assert forall|e: EdgeDescriptor<EV>| #[trigger]
        after.holds(e) <==> (node.holds(e) && !items_of(update.remove_edges).contains(e))
            || items_of(update.add_edges).contains(e) by {
        assert(after.holds(e) == cut.place_all(items_of(update.add_edges)).holds(e));
        assert(cut.holds(e) <==> node.edges().holds(e) && !items_of(
            update.remove_edges,
        ).contains(e));
    }
}

/// A node that is built from a creation is in order and holds the payload,
/// the labels and the edges of the creation.
pub proof fn lemma_from_new_pointwise<TV, EV, AV>(node: NewNodeView<TV, EV>, action: ActionData<AV>)
    ensures
        NodeView::<TV, EV, AV>::spec_from_new(node, action).in_order(),
        NodeView::<TV, EV, AV>::spec_from_new(node, action).id == node.id,
        NodeView::<TV, EV, AV>::spec_from_new(node, action).data == node.data,
        same_members(NodeView::<TV, EV, AV>::spec_from_new(node, action).labels, node.add_labels),
        forall|e: EdgeDescriptor<EV>| #[trigger]
            NodeView::<TV, EV, AV>::spec_from_new(node, action).holds(e)
                <==> node.add_edges.contains(e),
{
    let built = NodeView::<TV, EV, AV>::spec_from_new(node, action);
    lemma_union_members(Seq::<Seq<char>>::empty(), node.add_labels);
    assert forall|l: Seq<char>| built.labels.contains(l) <==> node.add_labels.contains(l) by {
        assert(!Seq::<Seq<char>>::empty().contains(l));
    }
    let none = EdgeMaps::<EV>::none();
    assert(crate::collections::seq_model::keys_of(none.incoming) =~= Seq::empty());
    assert(crate::collections::seq_model::keys_of(none.outgoing) =~= Seq::empty());
    lemma_place_all(none, node.add_edges);
    assert(built.edges() == none.place_all(node.add_edges));
    assert forall|e: EdgeDescriptor<EV>| #[trigger]
        built.holds(e) <==> node.add_edges.contains(e) by {
        assert(built.holds(e) == none.place_all(node.add_edges).holds(e));
        assert(!none.holds(e)) by {
            assert(!Seq::<EdgeDescriptor<EV>>::empty().contains(e));
        }
    }
}

/// The record that deletes a node in order holds what the node holds.
pub proof fn lemma_snapshot_pointwise<TV, EV, AV>(node: NodeView<TV, EV, AV>)
    requires
        node.in_order(),
    ensures
        forall|e: EdgeDescriptor<EV>| #[trigger]
            node.spec_snapshot().remove_edges.contains(e) <==> node.holds(e),
{
    assert forall|e: EdgeDescriptor<EV>| #[trigger]
        node.spec_snapshot().remove_edges.contains(e) <==> node.holds(e) by {
        lemma_all_edges_are_held(node.edges(), e);
    }
}

/// A change that can be undone on a node, applied and then undone, leaves
/// the node with the identifier, payload, labels and edges that it had.
pub proof fn law_update_round_trip<TV, EV, AV>(
    node: NodeView<TV, EV, AV>,
    update: FinalizedUpdateNodeView<TV, EV>,
    action: ActionData<AV>,
    undo_action: ActionData<AV>,
)
    requires
        node.in_order(),
        update.reversible_on(node),
    ensures
        node.spec_update(update, action).spec_update(
            update.spec_history_invert(),
            undo_action,
        ).same_content(node),
{
    let changed = node.spec_update(update, action);
    let back = changed.spec_update(update.spec_history_invert(), undo_action);
    lemma_update_pointwise(node, update, action);
    lemma_update_pointwise(changed, update.spec_history_invert(), undo_action);
    assert forall|l: Seq<char>| back.labels.contains(l) <==> node.labels.contains(l) by {
        assert(back.labels.contains(l) <==> (changed.labels.contains(l) || items_of(
            update.remove_labels,
        ).contains(l)) && !items_of(update.add_labels).contains(l));
    }
    assert forall|e: EdgeDescriptor<EV>| back.holds(e) <==> node.holds(e) by {
        assert(back.holds(e) <==> (changed.holds(e) && !items_of(update.add_edges).contains(e))
            || items_of(update.remove_edges).contains(e));
    }
}

} // verus!
