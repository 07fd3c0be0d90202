//! The store of the committed graph. Transactions reach it through
//! [`ViewGraph::apply`] and nowhere else.

use vstd::prelude::*;
use vstd::string::StringExecFns;

use crate::blueprint::delete_node::{DeleteNode, DeleteNodeView};
use crate::blueprint::finalized_update_node::{FinalizedUpdateNode, FinalizedUpdateNodeView};
use crate::blueprint::new_node::{NewNode, NewNodeView};
use crate::blueprint::update_node::items_of;
use crate::blueprint::{FinalizedBlueprint, FinalizedBlueprintView};
use crate::collections::seq_model::{
    drop_key, insert_unique, lemma_skip_none, lemma_skip_step, lookup, put, without,
};
use crate::collections::{VecMap, VecSet};
use crate::common::graph_error::decimal_text;
use crate::common::{GraphError, GraphErrorView, GraphTraits, GraphValue, Uid};
use crate::graph::reactive_node::build_reactive_node::{
    lemma_ingest_builds, BuildReactiveNode,
};
use crate::graph::reactive_node::last_action::ActionData;
use crate::graph::reactive_node::read_reactive_node::{NodeView, ReadReactiveNode};
use crate::graph::reactive_node::write_reactive_node::WriteReactiveNode;

verus! {

#[derive(Debug, Clone)]
pub struct ViewGraph<T, E, A> {
    pub nodes: VecMap<Uid, ReadReactiveNode<T, E, A>>,
    pub label_map: VecMap<String, VecSet<Uid>>,
}

/// What a [`ViewGraph`] holds: its nodes by identifier, and for each label
/// the nodes that were created with it.
pub struct GraphView<TV, EV, AV> {
    pub nodes: Seq<(Uid, NodeView<TV, EV, AV>)>,
    pub label_map: Seq<(Seq<char>, Seq<Uid>)>,
}

impl<T: View, E: View, A: View> View for ViewGraph<T, E, A> {
    type V = GraphView<T::V, E::V, A::V>;

    open spec fn view(&self) -> GraphView<T::V, E::V, A::V> {
        GraphView { nodes: self.nodes@, label_map: self.label_map@ }
    }
}

/// The error of looking up a node that the graph does not hold.
pub open spec fn node_missing(id: Uid) -> GraphErrorView {
    GraphErrorView::Blueprint("Use Routable: Failed to find node, ID: "@ + decimal_text(id as nat))
}

/// The error of changing a node that the graph does not hold.
pub open spec fn update_missing(id: Uid) -> GraphErrorView {
    GraphErrorView::Blueprint("Update Node: Failed to find node, ID: "@ + decimal_text(id as nat))
}

/// The error of deleting a node that the graph does not hold.
pub open spec fn delete_missing(id: Uid) -> GraphErrorView {
    GraphErrorView::Blueprint("Delete Node: Failed to find node, ID: "@ + decimal_text(id as nat))
}

/// The error of deleting a node with a label that is not indexed.
pub open spec fn label_missing(label: Seq<char>) -> GraphErrorView {
    GraphErrorView::Blueprint("Delete Node: Failed to find label, Label: "@ + label)
}

/// The index with node `id` under each of `labels`.
pub open spec fn spec_index_labels(
    index: Seq<(Seq<char>, Seq<Uid>)>,
    labels: Seq<Seq<char>>,
    id: Uid,
) -> Seq<(Seq<char>, Seq<Uid>)>
    decreases labels.len(),
{
    if labels.len() == 0 {
        index
    } else {
        spec_index_labels(
            put(index, labels[0], insert_unique(items_of(lookup(index, labels[0])), id)),
            labels.skip(1),
            id,
        )
    }
}

/// The index without node `id` under each of `labels`, or the error of the
/// first label that is not indexed.
pub open spec fn spec_unindex_labels(
    index: Seq<(Seq<char>, Seq<Uid>)>,
    labels: Seq<Seq<char>>,
    id: Uid,
) -> Result<Seq<(Seq<char>, Seq<Uid>)>, GraphErrorView>
    decreases labels.len(),
{
    if labels.len() == 0 {
        Ok(index)
    } else {
        match lookup(index, labels[0]) {
            None => Err(label_missing(labels[0])),
            Some(ids) => spec_unindex_labels(
                put(index, labels[0], without(ids, id)),
                labels.skip(1),
                id,
            ),
        }
    }
}

impl<TV, EV, AV> GraphView<TV, EV, AV> {
    /// The graph without nodes.
    pub open spec fn empty() -> Self {
        GraphView { nodes: Seq::empty(), label_map: Seq::empty() }
    }

    /// The graph with one node more, indexed under its labels.
    pub open spec fn spec_add_node(self, node: NewNodeView<TV, EV>, action: ActionData<AV>) -> Self {
        let built = NodeView::<TV, EV, AV>::spec_from_new(node, action);
        GraphView {
            nodes: put(self.nodes, node.id, built),
            label_map: spec_index_labels(self.label_map, built.labels, node.id),
        }
    }

    /// The graph with each of `nodes` added, in order.
    pub open spec fn spec_add_nodes(
        self,
        nodes: Seq<(Uid, NewNodeView<TV, EV>)>,
        action: ActionData<AV>,
    ) -> Self
        decreases nodes.len(),
    {
        if nodes.len() == 0 {
            self
        } else {
            self.spec_add_node(nodes[0].1, action).spec_add_nodes(nodes.skip(1), action)
        }
    }

    /// The graph with one node changed, or the error of changing a node that
    /// is not there.
    pub open spec fn spec_update_node(
        self,
        update: FinalizedUpdateNodeView<TV, EV>,
        action: ActionData<AV>,
    ) -> Result<Self, GraphErrorView> {
        match lookup(self.nodes, update.id) {
            Some(node) => Ok(
                GraphView {
                    nodes: put(self.nodes, update.id, node.spec_update(update, action)),
                    ..self
                },
            ),
            None => Err(update_missing(update.id)),
        }
    }

    /// The graph with each of `updates` applied in order, or the first
    /// error.
    pub open spec fn spec_update_nodes(
        self,
        updates: Seq<(Uid, FinalizedUpdateNodeView<TV, EV>)>,
        action: ActionData<AV>,
    ) -> Result<Self, GraphErrorView>
        decreases updates.len(),
    {
        if updates.len() == 0 {
            Ok(self)
        } else {
            match self.spec_update_node(updates[0].1, action) {
                Ok(next) => next.spec_update_nodes(updates.skip(1), action),
                Err(e) => Err(e),
            }
        }
    }

    /// The graph without node `id` and without its entries in the index, or
    /// the error of what is missing.
    pub open spec fn spec_delete_node(self, id: Uid) -> Result<Self, GraphErrorView> {
        match lookup(self.nodes, id) {
            None => Err(delete_missing(id)),
            Some(node) => match spec_unindex_labels(self.label_map, node.labels, id) {
                Err(e) => Err(e),
                Ok(index) => Ok(GraphView { nodes: drop_key(self.nodes, id), label_map: index }),
            },
        }
    }

    /// The graph with each of `deletes` carried out in order, or the first
    /// error.
    pub open spec fn spec_delete_nodes(
        self,
        deletes: Seq<(Uid, DeleteNodeView<TV, EV>)>,
    ) -> Result<Self, GraphErrorView>
        decreases deletes.len(),
    {
        if deletes.len() == 0 {
            Ok(self)
        } else {
            match self.spec_delete_node(deletes[0].0) {
                Ok(next) => next.spec_delete_nodes(deletes.skip(1)),
                Err(e) => Err(e),
            }
        }
    }

    /// The graph after a transaction: nodes created, then changed, then
    /// deleted; or the first error.
    pub open spec fn spec_apply(
        self,
        blueprint: FinalizedBlueprintView<TV, EV>,
        action: ActionData<AV>,
    ) -> Result<Self, GraphErrorView> {
        match self.spec_add_nodes(blueprint.new_nodes, action).spec_update_nodes(
            blueprint.update_nodes,
            action,
        ) {
            Ok(updated) => updated.spec_delete_nodes(blueprint.delete_nodes),
            Err(e) => Err(e),
        }
    }
}

fn index_labels(index: &mut VecMap<String, VecSet<Uid>>, labels: &VecSet<String>, id: Uid)
    ensures
        final(index)@ == spec_index_labels(old(index)@, labels@, id),
{
    let mut i: usize = 0;
    proof {
        lemma_skip_none(labels@);
    }
    while i < labels.len()
        invariant
            i <= labels@.len(),
            spec_index_labels(old(index)@, labels@, id) == spec_index_labels(
                index@,
                labels@.skip(i as int),
                id,
            ),
        decreases labels@.len() - i,
    {
        proof {
            lemma_skip_step(labels@, i as int);
        }
        let label = labels.get(i);
        let mut nodes_with_label = match index.get(label) {
            Some(ids) => ids.duplicate(),
            None => VecSet::new(),
        };
        nodes_with_label.insert(id);
        index.insert(label.duplicate(), nodes_with_label);
        i += 1;
    }
}

fn unindex_labels(index: &mut VecMap<String, VecSet<Uid>>, labels: &VecSet<String>, id: Uid) -> (r:
    Result<(), GraphError>)
    ensures
        match r {
            Ok(_) => spec_unindex_labels(old(index)@, labels@, id) == Ok::<
                Seq<(Seq<char>, Seq<Uid>)>,
                GraphErrorView,
            >(final(index)@),
            Err(e) => spec_unindex_labels(old(index)@, labels@, id) == Err::<
                Seq<(Seq<char>, Seq<Uid>)>,
                GraphErrorView,
            >(e@),
        },
{
    let mut i: usize = 0;
    proof {
        lemma_skip_none(labels@);
    }
    while i < labels.len()
        invariant
            i <= labels@.len(),
            spec_unindex_labels(old(index)@, labels@, id) == spec_unindex_labels(
                index@,
                labels@.skip(i as int),
                id,
            ),
        decreases labels@.len() - i,
    {
        proof {
            lemma_skip_step(labels@, i as int);
        }
        let label = labels.get(i);
        let found = match index.get(label) {
            Some(ids) => Some(ids.duplicate()),
            None => None,
        };
        match found {
            None => {
                return Err(
                    GraphError::Blueprint(
                        String::from_str("Delete Node: Failed to find label, Label: ").concat(
                            label.as_str(),
                        ),
                    ),
                );
            },
            Some(ids) => {
                let mut nodes_with_label = ids;
                nodes_with_label.remove(&id);
                index.insert(label.duplicate(), nodes_with_label);
            },
        }
        i += 1;
    }
    Ok(())
}

impl<T: GraphTraits, E: GraphTraits, A: GraphTraits> ViewGraph<T, E, A> {
    /// The graph without nodes.
    pub fn new() -> (r: Self)
        ensures
            r@ == GraphView::<T::V, E::V, A::V>::empty(),
    {
        ViewGraph { nodes: VecMap::new(), label_map: VecMap::new() }
    }

    /// A graph with the same contents.
    pub fn duplicate(&self) -> (r: Self)
        ensures
            r@ == self@,
    {
        ViewGraph {
            nodes: self.nodes.duplicate_with(ReadReactiveNode::<T, E, A>::duplicate),
            label_map: self.label_map.duplicate_with(VecSet::<Uid>::duplicate),
        }
    }

    /// The node under `id`, or the error that there is none.
    pub fn get_node(&self, id: &Uid) -> (r: Result<&ReadReactiveNode<T, E, A>, GraphError>)
        ensures
            match r {
                Ok(node) => lookup(self@.nodes, *id) == Some(node@),
                Err(e) => lookup(self@.nodes, *id) is None && e@ == node_missing(*id),
            },
    {
        match self.nodes.get(id) {
            Some(node) => Ok(node),
            None => Err(GraphError::blueprint_about("Use Routable: Failed to find node, ID: ", *id)),
        }
    }

    /// Creates each of `nodes`.
    pub fn add_nodes(&mut self, nodes: VecMap<Uid, NewNode<T, E>>, action_data: ActionData<A>)
        ensures
            final(self)@ == old(self)@.spec_add_nodes(nodes@, action_data@),
    {
        let mut i: usize = 0;
        proof {
            lemma_skip_none(nodes@);
        }
        while i < nodes.len()
            invariant
                i <= nodes@.len(),
                old(self)@.spec_add_nodes(nodes@, action_data@) == self@.spec_add_nodes(
                    nodes@.skip(i as int),
                    action_data@,
                ),
            decreases nodes@.len() - i,
        {
            proof {
                lemma_skip_step(nodes@, i as int);
            }
            self.add_node(nodes.value_at(i).duplicate(), action_data.duplicate());
            i += 1;
        }
    }

    /// Deletes each of `nodes`. Where one of them cannot be deleted, none
    /// is.
    pub fn delete_nodes(&mut self, nodes: VecMap<Uid, DeleteNode<T, E>>) -> (r: Result<
        (),
        GraphError,
    >)
        ensures
            match r {
                Ok(_) => old(self)@.spec_delete_nodes(nodes@) == Ok::<
                    GraphView<T::V, E::V, A::V>,
                    GraphErrorView,
                >(final(self)@),
                Err(e) => old(self)@.spec_delete_nodes(nodes@) == Err::<
                    GraphView<T::V, E::V, A::V>,
                    GraphErrorView,
                >(e@) && final(self)@ == old(self)@,
            },
    {
        let mut work = self.duplicate();
        let mut i: usize = 0;
        proof {
            lemma_skip_none(nodes@);
        }
        while i < nodes.len()
            invariant
                i <= nodes@.len(),
                self@ == old(self)@,
                old(self)@.spec_delete_nodes(nodes@) == work@.spec_delete_nodes(
                    nodes@.skip(i as int),
                ),
            decreases nodes@.len() - i,
        {
            proof {
                lemma_skip_step(nodes@, i as int);
            }
            match work.delete_node(*nodes.key_at(i)) {
                Ok(_) => {},
                Err(e) => {
                    return Err(e);
                },
            }
            i += 1;
        }
        *self = work;
        Ok(())
    }

    /// Applies each of `update_nodes`. Where one of them cannot be applied,
    /// none is.
    pub fn update_nodes(
        &mut self,
        update_nodes: VecMap<Uid, FinalizedUpdateNode<T, E>>,
        action_data: ActionData<A>,
    ) -> (r: Result<(), GraphError>)
        ensures
            match r {
                Ok(_) => old(self)@.spec_update_nodes(update_nodes@, action_data@) == Ok::<
                    GraphView<T::V, E::V, A::V>,
                    GraphErrorView,
                >(final(self)@),
                Err(e) => old(self)@.spec_update_nodes(update_nodes@, action_data@) == Err::<
                    GraphView<T::V, E::V, A::V>,
                    GraphErrorView,
                >(e@) && final(self)@ == old(self)@,
            },
    {
        let mut work = self.duplicate();
        let mut i: usize = 0;
        proof {
            lemma_skip_none(update_nodes@);
        }
        while i < update_nodes.len()
            invariant
                i <= update_nodes@.len(),
                self@ == old(self)@,
                old(self)@.spec_update_nodes(update_nodes@, action_data@)
                    == work@.spec_update_nodes(update_nodes@.skip(i as int), action_data@),
            decreases update_nodes@.len() - i,
        {
            proof {
                lemma_skip_step(update_nodes@, i as int);
            }
            match work.update_node(update_nodes.value_at(i).duplicate(), action_data.duplicate()) {
                Ok(_) => {},
                Err(e) => {
                    return Err(e);
                },
            }
            i += 1;
        }
        *self = work;
        Ok(())
    }

    /// Carries out a whole transaction: creations, then changes, then
    /// deletions. Where any step fails the graph stays as it was.
    pub fn apply(&mut self, blueprint: FinalizedBlueprint<T, E>, action_data: ActionData<A>) -> (r:
        Result<(), GraphError>)
        ensures
            match r {
                Ok(_) => old(self)@.spec_apply(blueprint@, action_data@) == Ok::<
                    GraphView<T::V, E::V, A::V>,
                    GraphErrorView,
                >(final(self)@),
                Err(e) => old(self)@.spec_apply(blueprint@, action_data@) == Err::<
                    GraphView<T::V, E::V, A::V>,
                    GraphErrorView,
                >(e@) && final(self)@ == old(self)@,
            },
    {
        let mut work = self.duplicate();
        work.add_nodes(blueprint.new_nodes, action_data.duplicate());
        match work.update_nodes(blueprint.update_nodes, action_data) {
            Ok(_) => {},
            Err(e) => {
                return Err(e);
            },
        }
        match work.delete_nodes(blueprint.delete_nodes) {
            Ok(_) => {},
            Err(e) => {
                return Err(e);
            },
        }
        *self = work;
        Ok(())
    }

    /// Creates one node and indexes it under its labels.
    pub fn add_node(&mut self, add_node: NewNode<T, E>, action_data: ActionData<A>)
        ensures
            final(self)@ == old(self)@.spec_add_node(add_node@, action_data@),
    {
        let id = add_node.id;
        proof {
            lemma_ingest_builds::<T::V, E::V, A::V>(add_node@, action_data@);
        }
        let (read_node, _write_node) = BuildReactiveNode::new().ingest_from_blueprint(
            add_node,
            action_data,
        ).build();
        index_labels(&mut self.label_map, &read_node.labels, id);
        self.nodes.insert(id, read_node);
    }

    /// Applies one change, or fails where its node is not there.
    pub fn update_node(
        &mut self,
        update_node: FinalizedUpdateNode<T, E>,
        action_data: ActionData<A>,
    ) -> (r: Result<(), GraphError>)
        ensures
            match r {
                Ok(_) => old(self)@.spec_update_node(update_node@, action_data@) == Ok::<
                    GraphView<T::V, E::V, A::V>,
                    GraphErrorView,
                >(final(self)@),
                Err(e) => old(self)@.spec_update_node(update_node@, action_data@) == Err::<
                    GraphView<T::V, E::V, A::V>,
                    GraphErrorView,
                >(e@) && final(self)@ == old(self)@,
            },
    {
        let id = update_node.id;
        let found = match self.nodes.get(&id) {
            Some(node) => Some(node.duplicate()),
            None => None,
        };
        match found {
            Some(node) => {
                let mut writer = WriteReactiveNode::from_read(node);
                writer.update(update_node, action_data);
                self.nodes.insert(id, writer.into_read());
                Ok(())
            },
            None => Err(GraphError::blueprint_about("Update Node: Failed to find node, ID: ", id)),
        }
    }

    /// Deletes one node and its entries in the index, or fails where the
    /// node or one of its labels is not there.
    pub fn delete_node(&mut self, node_id: Uid) -> (r: Result<(), GraphError>)
        ensures
            match r {
                Ok(_) => old(self)@.spec_delete_node(node_id) == Ok::<
                    GraphView<T::V, E::V, A::V>,
                    GraphErrorView,
                >(final(self)@),
                Err(e) => old(self)@.spec_delete_node(node_id) == Err::<
                    GraphView<T::V, E::V, A::V>,
                    GraphErrorView,
                >(e@) && final(self)@ == old(self)@,
            },
    {
        let labels = match self.nodes.get(&node_id) {
            Some(node) => Some(node.labels.duplicate()),
            None => None,
        };
        match labels {
            None => Err(
                GraphError::blueprint_about("Delete Node: Failed to find node, ID: ", node_id),
            ),
            Some(labels) => {
                let mut index = self.label_map.duplicate_with(VecSet::<Uid>::duplicate);
                match unindex_labels(&mut index, &labels, node_id) {
                    Err(e) => Err(e),
                    Ok(_) => {
                        self.label_map = index;
                        self.nodes.remove(&node_id);
                        Ok(())
                    },
                }
            },
        }
    }
}

} // verus!
