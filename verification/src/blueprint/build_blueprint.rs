//! The builder of a transaction: what is staged, and the handles through
//! which it is staged.

use vstd::prelude::*;

use crate::blueprint::new_node::{merge_conflict, NewNode, NewNodeView, TempId};
use crate::blueprint::update_node::{items_of, UpdateNode, UpdateNodeView};
use crate::collections::seq_model::{
    drop_key, insert_unique, lemma_view_all_push, lookup, put, view_all,
};
use crate::collections::uid_index::{
    uid_map_entries, uid_map_insert, uid_map_new, uid_set_insert, uid_set_new, UidMap,
};
use crate::collections::{VecMap, VecSet};
use crate::common::{
    EdgeDescriptor, EdgeDir, EdgeFinder, EdgeFinderView, GraphError, GraphErrorView, GraphTraits,
    GraphValue, Uid,
};

verus! {

/// An edge type and a direction through which a node may be rendered.
#[derive(Debug, Clone, PartialEq, Eq)]
pub struct AllowedRenderEdgeSpecifier<E> {
    pub edge_type: E,
    pub dir: EdgeDir,
}

impl<E: View> View for AllowedRenderEdgeSpecifier<E> {
    type V = AllowedRenderEdgeSpecifier<E::V>;

    open spec fn view(&self) -> AllowedRenderEdgeSpecifier<E::V> {
        AllowedRenderEdgeSpecifier { edge_type: self.edge_type@, dir: self.dir }
    }
}

/// An edge whose target is known by its alias only, and whether its host is
/// a node of this transaction.
#[derive(Debug, Clone)]
pub struct TempEdge<E> {
    pub edge: EdgeDescriptor<E>,
    pub is_new: bool,
}

impl<E: View> View for TempEdge<E> {
    type V = (EdgeDescriptor<E::V>, bool);

    open spec fn view(&self) -> (EdgeDescriptor<E::V>, bool) {
        (self.edge@, self.is_new)
    }
}

impl<E: GraphTraits> GraphValue for TempEdge<E> {
    fn same(&self, other: &Self) -> (b: bool) {
        self.edge.same(&other.edge) && self.is_new == other.is_new
    }

    fn duplicate(&self) -> (r: Self) {
        TempEdge { edge: self.edge.duplicate(), is_new: self.is_new }
    }
}

/// A pattern of edges to remove from a node of the graph.
#[derive(Debug, Clone)]
pub struct PendingRemoval<E> {
    pub host: Uid,
    pub finder: EdgeFinder<E>,
}

impl<E: View> View for PendingRemoval<E> {
    type V = (Uid, EdgeFinderView<E::V>);

    open spec fn view(&self) -> (Uid, EdgeFinderView<E::V>) {
        (self.host, self.finder@)
    }
}

/// All that is staged for one transaction.
#[derive(Debug)]
pub struct BuildBlueprint<T, E> {
    pub new_nodes: VecMap<Uid, NewNode<T, E>>,
    pub update_nodes: VecMap<Uid, UpdateNode<T, E>>,
    pub delete_nodes: VecSet<Uid>,
    /// Edges from a node of the graph into a node of this transaction, as
    /// the node of the graph stores them.
    pub entry_edges: VecSet<EdgeDescriptor<E>>,
    pub temp_edges: VecSet<TempEdge<E>>,
    pub remove_edge_finders: Vec<PendingRemoval<E>>,
    /// Nodes of the graph that lost the edge through which they were
    /// rendered, each with the edges that remain to it.
    pub displaced_nodes: VecMap<Uid, NewNode<T, E>>,
    /// Edges from a node of the graph that stays into a displaced node.
    pub displaced_entry_edges: VecSet<EdgeDescriptor<E>>,
    pub temp_id_map: UidMap,
    pub errors: Vec<GraphError>,
}

/// What a [`BuildBlueprint`] holds.
pub struct BuildBlueprintView<TV, EV> {
    pub new_nodes: Seq<(Uid, NewNodeView<TV, EV>)>,
    pub update_nodes: Seq<(Uid, UpdateNodeView<TV, EV>)>,
    pub delete_nodes: Seq<Uid>,
    pub entry_edges: Seq<EdgeDescriptor<EV>>,
    pub temp_edges: Seq<(EdgeDescriptor<EV>, bool)>,
    pub remove_edge_finders: Seq<(Uid, EdgeFinderView<EV>)>,
    pub displaced_nodes: Seq<(Uid, NewNodeView<TV, EV>)>,
    pub displaced_entry_edges: Seq<EdgeDescriptor<EV>>,
    pub temp_id_map: Map<Uid, Uid>,
    pub errors: Seq<GraphErrorView>,
    /// The payload of a node whose payload was never set.
    pub default_data: TV,
}

impl<T: GraphTraits, E: View> View for BuildBlueprint<T, E> {
    type V = BuildBlueprintView<T::V, E::V>;

    open spec fn view(&self) -> BuildBlueprintView<T::V, E::V> {
        BuildBlueprintView {
            new_nodes: self.new_nodes@,
            update_nodes: self.update_nodes@,
            delete_nodes: self.delete_nodes@,
            entry_edges: self.entry_edges@,
            temp_edges: self.temp_edges@,
            remove_edge_finders: view_all(self.remove_edge_finders@),
            displaced_nodes: self.displaced_nodes@,
            displaced_entry_edges: self.displaced_entry_edges@,
            temp_id_map: uid_map_entries(self.temp_id_map),
            errors: view_all(self.errors@),
            default_data: T::default_view(),
        }
    }
}

impl<TV, EV> BuildBlueprintView<TV, EV> {
    /// Nothing staged.
    pub open spec fn blank(default_data: TV) -> Self {
        BuildBlueprintView {
            new_nodes: Seq::empty(),
            update_nodes: Seq::empty(),
            delete_nodes: Seq::empty(),
            entry_edges: Seq::empty(),
            temp_edges: Seq::empty(),
            remove_edge_finders: Seq::empty(),
            displaced_nodes: Seq::empty(),
            displaced_entry_edges: Seq::empty(),
            temp_id_map: Map::empty(),
            errors: Seq::empty(),
            default_data,
        }
    }

    /// With one more error.
    pub open spec fn spec_fail(self, error: GraphErrorView) -> Self {
        BuildBlueprintView { errors: self.errors.push(error), ..self }
    }

    /// With `node` staged: merged into the record of the same node where
    /// there is one.
    pub open spec fn spec_add_node(self, node: NewNodeView<TV, EV>) -> Self {
        match lookup(self.new_nodes, node.id) {
            Some(existing) => {
                if existing.id != node.id {
                    self.spec_fail(merge_conflict(existing.id, node.id))
                } else {
                    BuildBlueprintView {
                        new_nodes: put(
                            self.new_nodes,
                            existing.id,
                            existing.spec_merge_additive(node, self.default_data),
                        ),
                        ..self
                    }
                }
            },
            None => BuildBlueprintView { new_nodes: put(self.new_nodes, node.id, node), ..self },
        }
    }

    /// With `node` staged: merged into the change of the same node where
    /// there is one.
    pub open spec fn spec_update_node(self, node: UpdateNodeView<TV, EV>) -> Self {
        match lookup(self.update_nodes, node.id) {
            Some(existing) => {
                if existing.id != node.id {
                    self.spec_fail(merge_conflict(existing.id, node.id))
                } else {
                    BuildBlueprintView {
                        update_nodes: put(
                            self.update_nodes,
                            existing.id,
                            existing.spec_merge(node),
                        ),
                        ..self
                    }
                }
            },
            None => BuildBlueprintView {
                update_nodes: put(self.update_nodes, node.id, node),
                ..self
            },
        }
    }

    /// The record of new node `id`, blank where none is staged.
    pub open spec fn new_node_or_blank(self, id: Uid) -> NewNodeView<TV, EV> {
        match lookup(self.new_nodes, id) {
            Some(n) => n,
            None => NewNodeView::blank(id, self.default_data),
        }
    }

    /// The change of node `id`, blank where none is staged.
    pub open spec fn update_node_or_blank(self, id: Uid) -> UpdateNodeView<TV, EV> {
        match lookup(self.update_nodes, id) {
            Some(n) => n,
            None => UpdateNodeView::blank(id),
        }
    }

    /// With `edge` staged on its host, which is a node of this transaction
    /// where `is_new` and one of the graph where not.
    pub open spec fn spec_add_edge(self, edge: EdgeDescriptor<EV>, is_new: bool) -> Self {
        if is_new {
            let node = self.new_node_or_blank(edge.host);
            BuildBlueprintView {
                new_nodes: put(
                    self.new_nodes,
                    edge.host,
                    NewNodeView { add_edges: insert_unique(node.add_edges, edge), ..node },
                ),
                ..self
            }
        } else {
            let node = self.update_node_or_blank(edge.host);
            BuildBlueprintView {
                update_nodes: put(
                    self.update_nodes,
                    edge.host,
                    UpdateNodeView {
                        add_edges: Some(insert_unique(items_of(node.add_edges), edge)),
                        ..node
                    },
                ),
                ..self
            }
        }
    }

    /// With `edge` as a way into this transaction.
    pub open spec fn spec_add_entry_edge(self, edge: EdgeDescriptor<EV>) -> Self {
        BuildBlueprintView { entry_edges: insert_unique(self.entry_edges, edge), ..self }
    }

    /// With alias `temp` for node `id`.
    pub open spec fn spec_alias(self, temp: Option<TempId>, id: Uid) -> Self {
        match temp {
            Some(t) => BuildBlueprintView { temp_id_map: self.temp_id_map.insert(t, id), ..self },
            None => self,
        }
    }

    /// With a new node `child` wired to node `host` by an edge that `host`
    /// stores as given: both sides of the edge are staged, and the edge is a
    /// way in where `host` is a node of the graph.
    pub open spec fn spec_wire_new(
        self,
        host: Uid,
        child: NewNodeView<TV, EV>,
        dir: EdgeDir,
        edge_type: EV,
        host_is_new: bool,
    ) -> Self {
        let edge = EdgeDescriptor { dir, edge_type, host, target: child.id, render_info: None };
        let staged = self.spec_alias(child.temp_id, child.id).spec_add_node(child).spec_add_edge(
            edge.spec_invert(),
            true,
        ).spec_add_edge(edge, host_is_new);
        if host_is_new {
            staged
        } else {
            staged.spec_add_entry_edge(edge)
        }
    }

    /// With a node `other` of the graph wired to node `host` by an edge that
    /// `host` stores as given: both sides of the edge are staged, and the
    /// inverted edge is a way in where `host` is a node of this transaction.
    pub open spec fn spec_wire_existing(
        self,
        host: Uid,
        other: UpdateNodeView<TV, EV>,
        dir: EdgeDir,
        edge_type: EV,
        host_is_new: bool,
    ) -> Self {
        let edge = EdgeDescriptor { dir, edge_type, host, target: other.id, render_info: None };
        let staged = self.spec_update_node(other).spec_add_edge(
            edge.spec_invert(),
            false,
        ).spec_add_edge(edge, host_is_new);
        if host_is_new {
            staged.spec_add_entry_edge(edge.spec_invert())
        } else {
            staged
        }
    }

    /// With an edge from `host` to the node that alias `temp_id` stands for.
    pub open spec fn spec_wire_temp(
        self,
        host: Uid,
        dir: EdgeDir,
        edge_type: EV,
        temp_id: TempId,
        host_is_new: bool,
    ) -> Self {
        BuildBlueprintView {
            temp_edges: insert_unique(
                self.temp_edges,
                (
                    EdgeDescriptor { dir, edge_type, host, target: temp_id, render_info: None },
                    host_is_new,
                ),
            ),
            ..self
        }
    }
}

impl<T: GraphTraits, E: GraphTraits> BuildBlueprint<T, E> {
    /// A builder with nothing staged.
    pub fn new() -> (r: Self)
        ensures
            r@ == BuildBlueprintView::<T::V, E::V>::blank(T::default_view()),
    {
        let r = BuildBlueprint {
            new_nodes: VecMap::new(),
            update_nodes: VecMap::new(),
            delete_nodes: VecSet::new(),
            entry_edges: VecSet::new(),
            temp_edges: VecSet::new(),
            temp_id_map: uid_map_new(),
            remove_edge_finders: Vec::new(),
            displaced_nodes: VecMap::new(),
            displaced_entry_edges: VecSet::new(),
            errors: Vec::new(),
        };
        assert(r@.remove_edge_finders =~= Seq::empty());
        assert(r@.errors =~= Seq::empty());
        assert(r@.temp_id_map =~= Map::empty());
        r
    }

    /// Records one more error.
    pub fn fail(&mut self, error: GraphError)
        ensures
            final(self)@ == old(self)@.spec_fail(error@),
    {
        proof {
            lemma_view_all_push(self.errors@, error);
        }
        self.errors.push(error);
    }

    /// Notes a way in: an edge from a node of the graph into a new node.
    pub fn add_entry_edge(&mut self, edge: EdgeDescriptor<E>)
        ensures
            final(self)@ == old(self)@.spec_add_entry_edge(edge@),
    {
        self.entry_edges.insert(edge);
    }

    /// Drops the record of the new node under `id`.
    pub fn remove_new_node(&mut self, id: Uid)
        ensures
            final(self)@ == (BuildBlueprintView {
                new_nodes: drop_key(old(self)@.new_nodes, id),
                ..old(self)@
            }),
    {
        let _result = self.new_nodes.remove(&id);
    }

    /// Stages `node`, merged into the record of the same node where there
    /// is one.
    pub fn add_node(&mut self, node: NewNode<T, E>)
        ensures
            final(self)@ == old(self)@.spec_add_node(node@),
    {
        let existing = match self.new_nodes.get(&node.id) {
            Some(n) => Some(n.duplicate()),
            None => None,
        };
        match existing {
            Some(existing_entry) => {
                let result = existing_entry.merge_additive(node);
                match result {
                    Err(err) => self.fail(err),
                    Ok(merged_node) => {
                        self.new_nodes.insert(merged_node.id, merged_node);
                    },
                }
            },
            None => {
                self.new_nodes.insert(node.id, node);
            },
        }
    }

    /// Stages a node with a fresh identifier and hands out the handle to
    /// it.
    pub fn start_with_new_node(self) -> (r: BlueNew<T, E>)
        ensures
            r.node@ == NewNodeView::<T::V, E::V>::blank(r.node@.id, T::default_view()),
            r.blueprint@ == self@.spec_add_node(r.node@),
    {
        let new_node = NewNode::new();
        let mut blueprint = self;
        blueprint.add_node(new_node.duplicate());
        BlueNew { node: new_node, blueprint }
    }

    /// Stages `node`, merged into the change of the same node where there
    /// is one.
    pub fn update_node(&mut self, node: UpdateNode<T, E>)
        ensures
            final(self)@ == old(self)@.spec_update_node(node@),
    {
        let existing = match self.update_nodes.get(&node.id) {
            Some(n) => Some(n.duplicate()),
            None => None,
        };
        match existing {
            Some(existing_entry) => {
                let result = existing_entry.merge(node);
                match result {
                    Err(error) => self.fail(error),
                    Ok(merged_node) => {
                        self.update_nodes.insert(merged_node.id, merged_node);
                    },
                }
            },
            None => {
                self.update_nodes.insert(node.id, node);
            },
        }
    }

    /// Stages a change to node `id` of the graph and hands out the handle
    /// to it.
    pub fn start_with_update_node(self, id: Uid) -> (r: BlueUpdate<T, E>)
        ensures
            r.node@ == UpdateNodeView::<T::V, E::V>::blank(id),
            r.blueprint@ == self@.spec_update_node(r.node@),
    {
        let update_node = UpdateNode::new(id);
        let mut blueprint = self;
        blueprint.update_node(update_node.duplicate());
        BlueUpdate { node: update_node, blueprint }
    }

    /// Marks node `node_id` of the graph for deletion.
    pub fn delete_node(&mut self, node_id: Uid)
        ensures
            final(self)@ == (BuildBlueprintView {
                delete_nodes: insert_unique(old(self)@.delete_nodes, node_id),
                ..old(self)@
            }),
    {
        self.delete_nodes.insert(node_id);
    }

    /// Stages `edge` on its host.
    pub fn add_edge(&mut self, edge: EdgeDescriptor<E>, is_new: bool)
        ensures
            final(self)@ == old(self)@.spec_add_edge(edge@, is_new),
    {
        let host = edge.host;
        if is_new {
            let mut node = match self.new_nodes.get(&host) {
                Some(n) => n.duplicate(),
                None => NewNode::new().set_id(host),
            };
            node.add_edges.insert(edge);
            self.new_nodes.insert(host, node);
        } else {
            let mut node = match self.update_nodes.get(&host) {
                Some(n) => n.duplicate(),
                None => UpdateNode::new(host),
            };
            let mut edges = match node.add_edges {
                Some(s) => s,
                None => VecSet::new(),
            };
            edges.insert(edge);
            node.add_edges = Some(edges);
            self.update_nodes.insert(host, node);
        }
    }

    /// Records that alias `temp` stands for node `id`.
    pub fn alias(&mut self, temp: Option<TempId>, id: Uid)
        ensures
            final(self)@ == old(self)@.spec_alias(temp, id),
    {
        match temp {
            Some(t) => {
                uid_map_insert(&mut self.temp_id_map, t, id);
            },
            None => {},
        }
    }

    /// Wires a new node to `host`.
    pub fn wire_new(
        &mut self,
        host: Uid,
        child: NewNode<T, E>,
        dir: EdgeDir,
        edge_type: E,
        host_is_new: bool,
    )
        ensures
            final(self)@ == old(self)@.spec_wire_new(host, child@, dir, edge_type@, host_is_new),
    {
        self.alias(child.temp_id, child.id);
        let this_edge = EdgeDescriptor::new(host, edge_type, child.id, None, dir);
        self.add_node(child);
        self.add_edge(this_edge.invert(), true);
        self.add_edge(this_edge.duplicate(), host_is_new);
        if !host_is_new {
            self.add_entry_edge(this_edge);
        }
    }

    /// Wires a node of the graph to `host`.
    pub fn wire_existing(
        &mut self,
        host: Uid,
        other: UpdateNode<T, E>,
        dir: EdgeDir,
        edge_type: E,
        host_is_new: bool,
    )
        ensures
            final(self)@ == old(self)@.spec_wire_existing(
                host,
                other@,
                dir,
                edge_type@,
                host_is_new,
            ),
    {
        let this_edge = EdgeDescriptor::new(host, edge_type, other.id, None, dir);
        self.update_node(other);
        self.add_edge(this_edge.invert(), false);
        self.add_edge(this_edge.duplicate(), host_is_new);
        if host_is_new {
            self.add_entry_edge(this_edge.invert());
        }
    }

    /// Stages an edge from `host` to the node that `temp_id` stands for.
    pub fn wire_temp(
        &mut self,
        host: Uid,
        dir: EdgeDir,
        edge_type: E,
        temp_id: TempId,
        host_is_new: bool,
    )
        ensures
            final(self)@ == old(self)@.spec_wire_temp(host, dir, edge_type@, temp_id, host_is_new),
    {
        let this_edge = EdgeDescriptor::new(host, edge_type, temp_id, None, dir);
        self.temp_edges.insert(TempEdge { edge: this_edge, is_new: host_is_new });
    }
}

/// The handle to a node that the transaction creates.
#[derive(Debug)]
pub struct BlueNew<T, E> {
    pub node: NewNode<T, E>,
    pub blueprint: BuildBlueprint<T, E>,
}

impl<T: GraphTraits, E: GraphTraits> BlueNew<T, E> {
    /// Sets the payload. Staged, the first payload that was set stays.
    pub fn set_data(self, data: T) -> (r: Self)
        ensures
            r.node@ == (NewNodeView { data: data@, ..self.node@ }),
            r.blueprint@ == self.blueprint@.spec_add_node(r.node@),
    {
        let mut node = self.node;
        node.data = data;
        let mut blueprint = self.blueprint;
        blueprint.add_node(node.duplicate());
        BlueNew { node, blueprint }
    }

    /// Gives the node another identifier; its record moves there, and its
    /// alias, where it has one, names the new identifier.
    pub fn set_id(self, id: Uid) -> (r: Self)
        ensures
            r.node@ == (NewNodeView { id, ..self.node@ }),
            r.blueprint@ == (BuildBlueprintView {
                new_nodes: drop_key(self.blueprint@.new_nodes, self.node@.id),
                ..self.blueprint@
            }).spec_add_node(r.node@).spec_alias(self.node@.temp_id, id),
    {
        let prev_id = self.node.id;
        let mut blueprint = self.blueprint;
        blueprint.remove_new_node(prev_id);
        let mut node = self.node;
        node.id = id;
        blueprint.add_node(node.duplicate());
        blueprint.alias(node.temp_id, id);
        BlueNew { node, blueprint }
    }

    /// Adds a label to the node.
    pub fn add_label(self, label: String) -> (r: Self)
        ensures
            r.node@ == (NewNodeView {
                add_labels: insert_unique(self.node@.add_labels, label@),
                ..self.node@
            }),
            r.blueprint@ == self.blueprint@.spec_add_node(r.node@),
    {
        let mut node = self.node;
        node.add_labels.insert(label);
        let mut blueprint = self.blueprint;
        blueprint.add_node(node.duplicate());
        BlueNew { node, blueprint }
    }

    /// Gives the node an alias under which the rest of the transaction can
    /// name it.
    pub fn set_temp_id(self, temp_id: Uid) -> (r: Self)
        ensures
            r.node@ == (NewNodeView { temp_id: Some(temp_id), ..self.node@ }),
            r.blueprint@ == self.blueprint@.spec_alias(Some(temp_id), self.node@.id).spec_add_node(
                r.node@,
            ),
    {
        let mut node = self.node;
        node.temp_id = Some(temp_id);
        let mut blueprint = self.blueprint;
        blueprint.alias(Some(temp_id), node.id);
        blueprint.add_node(node.duplicate());
        BlueNew { node, blueprint }
    }
}

/// The handle to a node of the graph that the transaction changes.
#[derive(Debug)]
pub struct BlueUpdate<T, E> {
    pub node: UpdateNode<T, E>,
    pub blueprint: BuildBlueprint<T, E>,
}

impl<T: GraphTraits, E: GraphTraits> BlueUpdate<T, E> {
    /// Replaces the payload. Staged, the first replacement stays.
    pub fn update_data(self, data: T) -> (r: Self)
        ensures
            r.node@ == (UpdateNodeView { replacement_data: Some(data@), ..self.node@ }),
            r.blueprint@ == self.blueprint@.spec_update_node(r.node@),
    {
        let mut node = self.node;
        node.replacement_data = Some(data);
        let mut blueprint = self.blueprint;
        blueprint.update_node(node.duplicate());
        BlueUpdate { node, blueprint }
    }

    /// Stages the addition of a label.
    pub fn add_label(self, label: String) -> (r: Self)
        ensures
            r.node@ == (UpdateNodeView {
                add_labels: Some(insert_unique(items_of(self.node@.add_labels), label@)),
                ..self.node@
            }),
            r.blueprint@ == self.blueprint@.spec_update_node(r.node@),
    {
        let mut node = self.node;
        let mut new_labels = match node.add_labels {
            Some(s) => s,
            None => VecSet::new(),
        };
        new_labels.insert(label);
        node.add_labels = Some(new_labels);
        let mut blueprint = self.blueprint;
        blueprint.update_node(node.duplicate());
        BlueUpdate { node, blueprint }
    }

    /// Stages the removal of a label.
    pub fn remove_label(self, label: String) -> (r: Self)
        ensures
            r.node@ == (UpdateNodeView {
                remove_labels: Some(insert_unique(items_of(self.node@.remove_labels), label@)),
                ..self.node@
            }),
            r.blueprint@ == self.blueprint@.spec_update_node(r.node@),
    {
        let mut node = self.node;
        let mut new_labels = match node.remove_labels {
            Some(s) => s,
            None => VecSet::new(),
        };
        new_labels.insert(label);
        node.remove_labels = Some(new_labels);
        let mut blueprint = self.blueprint;
        blueprint.update_node(node.duplicate());
        BlueUpdate { node, blueprint }
    }

    /// Queues the removal of the edges of this node that `edge_finder`
    /// matches. Which edges these are is settled against the graph when the
    /// transaction is finalized.
    pub fn remove_edge(self, edge_finder: EdgeFinder<E>) -> (r: Self)
        ensures
            r.node@ == self.node@,
            r.blueprint@ == (BuildBlueprintView {
                remove_edge_finders: self.blueprint@.remove_edge_finders.push(
                    (
                        self.node@.id,
                        EdgeFinderView { host: Some(set![self.node@.id]), ..edge_finder@ },
                    ),
                ),
                ..self.blueprint@
            }),
    {
        let mut host_hashset = uid_set_new();
        uid_set_insert(&mut host_hashset, self.node.id);
        assert(crate::collections::uid_index::uid_set_members(host_hashset) =~= set![self.node.id]);
        let mut edge_finder = edge_finder;
        edge_finder.host = Some(host_hashset);
        let mut blueprint = self.blueprint;
        let pending = PendingRemoval { host: self.node.id, finder: edge_finder };
        proof {
            lemma_view_all_push(blueprint.remove_edge_finders@, pending);
        }
        blueprint.remove_edge_finders.push(pending);
        BlueUpdate { node: self.node, blueprint }
    }
}

/// Whether a handle is to a node that the transaction creates.
pub trait GetIsNew {
    spec fn spec_is_new(&self) -> bool;

    fn get_is_new(&self) -> (b: bool)
        ensures
            b == self.spec_is_new(),
    ;
}

impl<T: GraphTraits, E: GraphTraits> GetIsNew for BlueNew<T, E> {
    open spec fn spec_is_new(&self) -> bool {
        true
    }

    fn get_is_new(&self) -> (b: bool) {
        true
    }
}

impl<T: GraphTraits, E: GraphTraits> GetIsNew for BlueUpdate<T, E> {
    open spec fn spec_is_new(&self) -> bool {
        false
    }

    fn get_is_new(&self) -> (b: bool) {
        false
    }
}

/// Whether `start` is a handle to a blank new node over what is staged in
/// `staged`.
pub open spec fn starts_new<T: GraphTraits, E: GraphTraits>(
    start: BlueNew<T, E>,
    staged: BuildBlueprintView<T::V, E::V>,
) -> bool {
    start.blueprint@ == staged && start.node@ == NewNodeView::<T::V, E::V>::blank(
        start.node@.id,
        T::default_view(),
    )
}

/// Whether `start` is a handle to a blank change of node `id` over what is
/// staged in `staged`.
pub open spec fn starts_update<T: GraphTraits, E: GraphTraits>(
    start: BlueUpdate<T, E>,
    staged: BuildBlueprintView<T::V, E::V>,
    id: Uid,
) -> bool {
    start.blueprint@ == staged && start.node@ == UpdateNodeView::<T::V, E::V>::blank(id)
}

/// Edges from the node of a handle to other nodes.
pub trait AddBlueprintEdges<T: GraphTraits, E: GraphTraits>: GetIsNew + Sized {
    /// The node of the handle.
    spec fn host_id(&self) -> Uid;

    /// What is staged.
    spec fn staged(&self) -> BuildBlueprintView<T::V, E::V>;

    /// Whether the two handles are to the same record.
    spec fn same_record(&self, other: &Self) -> bool;

    /// Wires the node of the handle to node `id` of the graph. `f` may
    /// stage changes to that node first.
    fn add_edge_existing<F>(self, direction: EdgeDir, edge_type: E, id: Uid, f: F) -> (r: Self)
        where F: FnOnce(BlueUpdate<T, E>) -> BlueUpdate<T, E>
        requires
            forall|start: BlueUpdate<T, E>|
                starts_update(start, self.staged(), id) ==> #[trigger] f.requires((start,)),
        ensures
            r.same_record(&self),
            r.host_id() == self.host_id(),
            r.spec_is_new() == self.spec_is_new(),
            exists|start: BlueUpdate<T, E>, other: BlueUpdate<T, E>|
                starts_update(start, self.staged(), id) && #[trigger] f.ensures((start,), other)
                    && r.staged() == other.blueprint@.spec_wire_existing(
                    self.host_id(),
                    other.node@,
                    direction,
                    edge_type@,
                    self.spec_is_new(),
                ),
    ;

    /// Wires the node of the handle to a node that the transaction
    /// creates. `f` describes that node.
    fn add_edge_new<F>(self, direction: EdgeDir, edge_type: E, f: F) -> (r: Self)
        where F: FnOnce(BlueNew<T, E>) -> BlueNew<T, E>
        requires
            forall|start: BlueNew<T, E>|
                starts_new(start, self.staged()) ==> #[trigger] f.requires((start,)),
        ensures
            r.same_record(&self),
            r.host_id() == self.host_id(),
            r.spec_is_new() == self.spec_is_new(),
            exists|start: BlueNew<T, E>, child: BlueNew<T, E>|
                starts_new(start, self.staged()) && #[trigger] f.ensures((start,), child)
                    && r.staged() == child.blueprint@.spec_wire_new(
                    self.host_id(),
                    child.node@,
                    direction,
                    edge_type@,
                    self.spec_is_new(),
                ),
    ;

    /// Wires the node of the handle to the node that `temp_id` stands for.
    /// The other side of the edge is staged when the transaction is
    /// finalized.
    fn add_edge_temp(self, direction: EdgeDir, edge_type: E, temp_id: Uid) -> (r: Self)
        ensures
            r.same_record(&self),
            r.host_id() == self.host_id(),
            r.spec_is_new() == self.spec_is_new(),
            r.staged() == self.staged().spec_wire_temp(
                self.host_id(),
                direction,
                edge_type@,
                temp_id,
                self.spec_is_new(),
            ),
    ;
}

impl<T: GraphTraits, E: GraphTraits> AddBlueprintEdges<T, E> for BlueNew<T, E> {
    open spec fn host_id(&self) -> Uid {
        self.node@.id
    }

    open spec fn staged(&self) -> BuildBlueprintView<T::V, E::V> {
        self.blueprint@
    }

    open spec fn same_record(&self, other: &Self) -> bool {
        self.node@ == other.node@
    }

    fn add_edge_new<F>(self, dir: EdgeDir, edge_type: E, f: F) -> (r: Self)
        where F: FnOnce(BlueNew<T, E>) -> BlueNew<T, E>
    {
        let start = BlueNew { node: NewNode::new(), blueprint: self.blueprint };
        let ghost start_seen = start;
        let edge_node = f(start);
        let ghost child_seen = edge_node;
        let mut blueprint = edge_node.blueprint;
        blueprint.wire_new(self.node.id, edge_node.node, dir, edge_type, true);
        let r = BlueNew { node: self.node, blueprint };
        assert(starts_new(start_seen, self.staged()) && f.ensures((start_seen,), child_seen)
            && r.staged() == child_seen.blueprint@.spec_wire_new(
            self.host_id(),
            child_seen.node@,
            dir,
            edge_type@,
            self.spec_is_new(),
        ));
        r
    }

    fn add_edge_existing<F>(self, dir: EdgeDir, edge_type: E, id: Uid, f: F) -> (r: Self)
        where F: FnOnce(BlueUpdate<T, E>) -> BlueUpdate<T, E>
    {
        let start = BlueUpdate { node: UpdateNode::new(id), blueprint: self.blueprint };
        let ghost start_seen = start;
        let edge_node = f(start);
        let ghost other_seen = edge_node;
        let mut blueprint = edge_node.blueprint;
        blueprint.wire_existing(self.node.id, edge_node.node, dir, edge_type, true);
        let r = BlueNew { node: self.node, blueprint };
        assert(starts_update(start_seen, self.staged(), id) && f.ensures(
            (start_seen,),
            other_seen,
        ) && r.staged() == other_seen.blueprint@.spec_wire_existing(
            self.host_id(),
            other_seen.node@,
            dir,
            edge_type@,
            self.spec_is_new(),
        ));
        r
    }

    fn add_edge_temp(self, dir: EdgeDir, edge_type: E, temp_id: Uid) -> (r: Self) {
        let mut blueprint = self.blueprint;
        blueprint.wire_temp(self.node.id, dir, edge_type, temp_id, true);
        BlueNew { node: self.node, blueprint }
    }
}

impl<T: GraphTraits, E: GraphTraits> AddBlueprintEdges<T, E> for BlueUpdate<T, E> {
    open spec fn host_id(&self) -> Uid {
        self.node@.id
    }

    open spec fn staged(&self) -> BuildBlueprintView<T::V, E::V> {
        self.blueprint@
    }

    open spec fn same_record(&self, other: &Self) -> bool {
        self.node@ == other.node@
    }

    fn add_edge_new<F>(self, dir: EdgeDir, edge_type: E, f: F) -> (r: Self)
        where F: FnOnce(BlueNew<T, E>) -> BlueNew<T, E>
    {
        let start = BlueNew { node: NewNode::new(), blueprint: self.blueprint };
        let ghost start_seen = start;
        let edge_node = f(start);
        let ghost child_seen = edge_node;
        let mut blueprint = edge_node.blueprint;
        blueprint.wire_new(self.node.id, edge_node.node, dir, edge_type, false);
        let r = BlueUpdate { node: self.node, blueprint };
        assert(starts_new(start_seen, self.staged()) && f.ensures((start_seen,), child_seen)
            && r.staged() == child_seen.blueprint@.spec_wire_new(
            self.host_id(),
            child_seen.node@,
            dir,
            edge_type@,
            self.spec_is_new(),
        ));
        r
    }

    fn add_edge_existing<F>(self, dir: EdgeDir, edge_type: E, id: Uid, f: F) -> (r: Self)
        where F: FnOnce(BlueUpdate<T, E>) -> BlueUpdate<T, E>
    {
        let start = BlueUpdate { node: UpdateNode::new(id), blueprint: self.blueprint };
        let ghost start_seen = start;
        let edge_node = f(start);
        let ghost other_seen = edge_node;
        let mut blueprint = edge_node.blueprint;
        blueprint.wire_existing(self.node.id, edge_node.node, dir, edge_type, false);
        let r = BlueUpdate { node: self.node, blueprint };
        assert(starts_update(start_seen, self.staged(), id) && f.ensures(
            (start_seen,),
            other_seen,
        ) && r.staged() == other_seen.blueprint@.spec_wire_existing(
            self.host_id(),
            other_seen.node@,
            dir,
            edge_type@,
            self.spec_is_new(),
        ));
        r
    }

    fn add_edge_temp(self, dir: EdgeDir, edge_type: E, temp_id: Uid) -> (r: Self) {
        let mut blueprint = self.blueprint;
        blueprint.wire_temp(self.node.id, dir, edge_type, temp_id, false);
        BlueUpdate { node: self.node, blueprint }
    }
}

} // verus!
