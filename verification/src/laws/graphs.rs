//! What a transaction does to the graph, node by node.

use vstd::prelude::*;

use crate::blueprint::delete_node::DeleteNodeView;
use crate::blueprint::finalized_update_node::FinalizedUpdateNodeView;
use crate::blueprint::new_node::NewNodeView;
use crate::collections::seq_facts::{
    lemma_drop_keeps_unique, lemma_lookup_drop_other, lemma_lookup_drop_same,
    lemma_lookup_put_other, lemma_lookup_put_same, lemma_put_keeps_unique, unique_keys,
};
use crate::collections::seq_model::{keys_of, lookup};
use crate::common::{GraphErrorView, Uid};
use crate::graph::reactive_node::last_action::ActionData;
use crate::graph::reactive_node::read_reactive_node::NodeView;
use crate::graph::view_graph::GraphView;
use crate::laws::nodes::{lemma_from_new_pointwise, lemma_update_pointwise};

verus! {

impl<TV, EV, AV> GraphView<TV, EV, AV> {
    /// The node under `id`.
    pub open spec fn node(self, id: Uid) -> Option<NodeView<TV, EV, AV>> {
        lookup(self.nodes, id)
    }

    /// Whether the graph is in order: one node under each identifier, each
    /// with that identifier and with its edges in order.
    pub open spec fn in_order(self) -> bool {
        &&& unique_keys(self.nodes)
        &&& forall|id: Uid| #[trigger]
            self.node(id) matches Some(n) ==> n.in_order() && n.id == id
    }
}

/// The identifiers of the records of a map.
pub open spec fn new_ids<TV, EV>(nodes: Seq<(Uid, NewNodeView<TV, EV>)>) -> Seq<Uid> {
    Seq::new(nodes.len(), |i: int| nodes[i].1.id)
}

/// The identifiers of the changes of a map.
pub open spec fn update_ids<TV, EV>(nodes: Seq<(Uid, FinalizedUpdateNodeView<TV, EV>)>) -> Seq<
    Uid,
> {
    Seq::new(nodes.len(), |i: int| nodes[i].1.id)
}

proof fn lemma_skip_contains<A>(s: Seq<A>, a: A)
    requires
        s.len() > 0,
    ensures
        s.contains(a) <==> s[0] == a || s.skip(1).contains(a),
        s.no_duplicates() ==> s.skip(1).no_duplicates() && !s.skip(1).contains(s[0]),
{
    if s.skip(1).contains(a) {
        let j = choose|j: int| 0 <= j < s.skip(1).len() && s.skip(1)[j] == a;
        assert(s[j + 1] == a);
    }
    if s.contains(a) {
        let j = choose|j: int| 0 <= j < s.len() && s[j] == a;
        if j > 0 {
            assert(s.skip(1)[j - 1] == a);
        }
    }
    if s.no_duplicates() {
        if s.skip(1).contains(s[0]) {
            let j = choose|j: int| 0 <= j < s.skip(1).len() && s.skip(1)[j] == s[0];
            assert(s[j + 1] == s[0]);
        }
    }
}

/// A graph in order with one node more is in order; the new node is under
/// its identifier, and every other node where it was.
pub proof fn lemma_add_node<TV, EV, AV>(
    graph: GraphView<TV, EV, AV>,
    node: NewNodeView<TV, EV>,
    action: ActionData<AV>,
)
    requires
        graph.in_order(),
    ensures
        graph.spec_add_node(node, action).in_order(),
        graph.spec_add_node(node, action).node(node.id) == Some(
            NodeView::<TV, EV, AV>::spec_from_new(node, action),
        ),
        forall|id: Uid|
            id != node.id ==> #[trigger] graph.spec_add_node(node, action).node(id) == graph.node(
                id,
            ),
{
    let built = NodeView::<TV, EV, AV>::spec_from_new(node, action);
    let after = graph.spec_add_node(node, action);
    lemma_from_new_pointwise::<TV, EV, AV>(node, action);
    lemma_put_keeps_unique(graph.nodes, node.id, built);
    lemma_lookup_put_same(graph.nodes, node.id, built);
    assert forall|id: Uid| id != node.id implies #[trigger] after.node(id) == graph.node(id) by {
        lemma_lookup_put_other(graph.nodes, node.id, built, id);
    }
    assert forall|id: Uid| #[trigger] after.node(id) is Some implies after.node(id)->0.in_order()
        && after.node(id)->0.id == id by {
        if id != node.id {
            assert(after.node(id) == graph.node(id));
        }
    }
}

/// A graph in order with more nodes, each under an identifier of its own,
/// is in order; each new node is under its identifier, and every other
/// node where it was.
pub proof fn lemma_add_nodes<TV, EV, AV>(
    graph: GraphView<TV, EV, AV>,
    nodes: Seq<(Uid, NewNodeView<TV, EV>)>,
    action: ActionData<AV>,
)
    requires
        graph.in_order(),
        new_ids(nodes).no_duplicates(),
    ensures
        graph.spec_add_nodes(nodes, action).in_order(),
        forall|i: int|
            0 <= i < nodes.len() ==> graph.spec_add_nodes(nodes, action).node(
                (#[trigger] nodes[i]).1.id,
            ) == Some(NodeView::<TV, EV, AV>::spec_from_new(nodes[i].1, action)),
        forall|id: Uid|
            !new_ids(nodes).contains(id) ==> #[trigger] graph.spec_add_nodes(nodes, action).node(
                id,
            ) == graph.node(id),
    decreases nodes.len(),
{
    if nodes.len() > 0 {
        let first = graph.spec_add_node(nodes[0].1, action);
        let after = graph.spec_add_nodes(nodes, action);
        lemma_add_node(graph, nodes[0].1, action);
        assert(new_ids(nodes.skip(1)) =~= new_ids(nodes).skip(1));
        lemma_skip_contains(new_ids(nodes), nodes[0].1.id);
        lemma_add_nodes(first, nodes.skip(1), action);
        assert forall|i: int| 0 <= i < nodes.len() implies after.node((#[trigger] nodes[i]).1.id)
            == Some(NodeView::<TV, EV, AV>::spec_from_new(nodes[i].1, action)) by {
            if i == 0 {
                assert(new_ids(nodes)[0] == nodes[0].1.id);
                assert(!new_ids(nodes.skip(1)).contains(nodes[0].1.id));
                assert(after.node(nodes[0].1.id) == first.node(nodes[0].1.id));
            } else {
                assert(nodes.skip(1)[i - 1] == nodes[i]);
            }
        }
        assert forall|id: Uid| !new_ids(nodes).contains(id) implies #[trigger] after.node(id)
            == graph.node(id) by {
            lemma_skip_contains(new_ids(nodes), id);
            assert(new_ids(nodes)[0] == nodes[0].1.id);
            assert(after.node(id) == first.node(id));
            assert(first.node(id) == graph.node(id));
        }
    } else {
        assert forall|id: Uid| !new_ids(nodes).contains(id) implies #[trigger] graph.spec_add_nodes(
            nodes,
            action,
        ).node(id) == graph.node(id) by {}
    }
}

/// A graph in order with one node changed is in order; the node is changed
/// where it was, and every other node is as it was.
pub proof fn lemma_update_node<TV, EV, AV>(
    graph: GraphView<TV, EV, AV>,
    update: FinalizedUpdateNodeView<TV, EV>,
    action: ActionData<AV>,
    after: GraphView<TV, EV, AV>,
)
    requires
        graph.in_order(),
        graph.spec_update_node(update, action) == Ok::<GraphView<TV, EV, AV>, GraphErrorView>(
            after,
        ),
    ensures
        after.in_order(),
        graph.node(update.id) is Some,
        after.node(update.id) == Some(graph.node(update.id)->0.spec_update(update, action)),
        forall|id: Uid| id != update.id ==> #[trigger] after.node(id) == graph.node(id),
{
    let node = graph.node(update.id)->0;
    let changed = node.spec_update(update, action);
    lemma_update_pointwise(node, update, action);
    lemma_put_keeps_unique(graph.nodes, update.id, changed);
    lemma_lookup_put_same(graph.nodes, update.id, changed);
    assert forall|id: Uid| id != update.id implies #[trigger] after.node(id) == graph.node(id) by {
        lemma_lookup_put_other(graph.nodes, update.id, changed, id);
    }
    assert forall|id: Uid| #[trigger] after.node(id) is Some implies after.node(id)->0.in_order()
        && after.node(id)->0.id == id by {
        if id != update.id {
            assert(after.node(id) == graph.node(id));
        }
    }
}

/// A graph in order with some of its nodes changed, each once, is in order;
/// each of these nodes is changed where it was, and every other node is as
/// it was.
pub proof fn lemma_update_nodes<TV, EV, AV>(
    graph: GraphView<TV, EV, AV>,
    updates: Seq<(Uid, FinalizedUpdateNodeView<TV, EV>)>,
    action: ActionData<AV>,
    after: GraphView<TV, EV, AV>,
)
    requires
        graph.in_order(),
        update_ids(updates).no_duplicates(),
        graph.spec_update_nodes(updates, action) == Ok::<GraphView<TV, EV, AV>, GraphErrorView>(
            after,
        ),
    ensures
        after.in_order(),
        forall|i: int|
            0 <= i < updates.len() ==> graph.node((#[trigger] updates[i]).1.id) is Some
                && after.node(updates[i].1.id) == Some(
                graph.node(updates[i].1.id)->0.spec_update(updates[i].1, action),
            ),
        forall|id: Uid|
            !update_ids(updates).contains(id) ==> #[trigger] after.node(id) == graph.node(id),
    decreases updates.len(),
{
    if updates.len() > 0 {
        let first = graph.spec_update_node(updates[0].1, action)->Ok_0;
        lemma_update_node(graph, updates[0].1, action, first);
        assert(update_ids(updates.skip(1)) =~= update_ids(updates).skip(1));
        lemma_skip_contains(update_ids(updates), updates[0].1.id);
        lemma_update_nodes(first, updates.skip(1), action, after);
        assert(update_ids(updates)[0] == updates[0].1.id);
        assert forall|i: int| 0 <= i < updates.len() implies graph.node(
            (#[trigger] updates[i]).1.id,
        ) is Some && after.node(updates[i].1.id) == Some(
            graph.node(updates[i].1.id)->0.spec_update(updates[i].1, action),
        ) by {
            if i == 0 {
                assert(!update_ids(updates.skip(1)).contains(updates[0].1.id));
                assert(after.node(updates[0].1.id) == first.node(updates[0].1.id));
            } else {
                assert(updates.skip(1)[i - 1] == updates[i]);
                assert(update_ids(updates)[i] == updates[i].1.id);
                assert(updates[i].1.id != updates[0].1.id);
                assert(first.node(updates[i].1.id) == graph.node(updates[i].1.id));
            }
        }
        assert forall|id: Uid| !update_ids(updates).contains(id) implies #[trigger] after.node(id)
            == graph.node(id) by {
            lemma_skip_contains(update_ids(updates), id);
            assert(after.node(id) == first.node(id));
            assert(first.node(id) == graph.node(id));
        }
    } else {
        assert forall|id: Uid| !update_ids(updates).contains(id) implies #[trigger] after.node(id)
            == graph.node(id) by {}
    }
}

/// A graph in order without one of its nodes is in order; the node is gone,
/// and every other node is as it was.
pub proof fn lemma_delete_node<TV, EV, AV>(
    graph: GraphView<TV, EV, AV>,
    id: Uid,
    after: GraphView<TV, EV, AV>,
)
    requires
        graph.in_order(),
        graph.spec_delete_node(id) == Ok::<GraphView<TV, EV, AV>, GraphErrorView>(after),
    ensures
        after.in_order(),
        graph.node(id) is Some,
        after.node(id) is None,
        forall|other: Uid| other != id ==> #[trigger] after.node(other) == graph.node(other),
{
    lemma_drop_keeps_unique(graph.nodes, id);
    lemma_lookup_drop_same(graph.nodes, id);
    assert forall|other: Uid| other != id implies #[trigger] after.node(other) == graph.node(
        other,
    ) by {
        lemma_lookup_drop_other(graph.nodes, id, other);
    }
    assert forall|other: Uid| #[trigger] after.node(other) is Some implies after.node(
        other,
    )->0.in_order() && after.node(other)->0.id == other by {
        if other != id {
            assert(after.node(other) == graph.node(other));
        }
    }
}

/// A graph in order without some of its nodes is in order; these nodes are
/// gone, and every other node is as it was.
pub proof fn lemma_delete_nodes<TV, EV, AV>(
    graph: GraphView<TV, EV, AV>,
    deletes: Seq<(Uid, DeleteNodeView<TV, EV>)>,
    after: GraphView<TV, EV, AV>,
)
    requires
        graph.in_order(),
        graph.spec_delete_nodes(deletes) == Ok::<GraphView<TV, EV, AV>, GraphErrorView>(after),
    ensures
        after.in_order(),
        forall|id: Uid| keys_of(deletes).contains(id) ==> #[trigger] after.node(id) is None,
        forall|id: Uid| !keys_of(deletes).contains(id) ==> #[trigger] after.node(id) == graph.node(id),
    decreases deletes.len(),
{
    if deletes.len() > 0 {
        let first = graph.spec_delete_node(deletes[0].0)->Ok_0;
        lemma_delete_node(graph, deletes[0].0, first);
        assert(keys_of(deletes.skip(1)) =~= keys_of(deletes).skip(1));
        lemma_delete_nodes(first, deletes.skip(1), after);
        assert(keys_of(deletes)[0] == deletes[0].0);
        assert forall|id: Uid| keys_of(deletes).contains(id) implies #[trigger] after.node(
            id,
        ) is None by {
            lemma_skip_contains(keys_of(deletes), id);
            if !keys_of(deletes.skip(1)).contains(id) {
                assert(after.node(id) == first.node(id));
            }
        }
        assert forall|id: Uid| !keys_of(deletes).contains(id) implies #[trigger] after.node(id)
            == graph.node(id) by {
            lemma_skip_contains(keys_of(deletes), id);
            assert(after.node(id) == first.node(id));
            assert(first.node(id) == graph.node(id));
        }
    } else {
        assert forall|id: Uid| !keys_of(deletes).contains(id) implies #[trigger] after.node(id)
            == graph.node(id) by {}
        assert forall|id: Uid| keys_of(deletes).contains(id) implies #[trigger] after.node(
            id,
        ) is None by {}
    }
}

} // verus!
