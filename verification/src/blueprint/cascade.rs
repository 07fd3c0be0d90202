//! What finalizing does before render edges are chosen: aliases are
//! resolved, deletions cascade, and the nodes that lose the edge through
//! which they were rendered are found.

use vstd::prelude::*;

use crate::blueprint::build_blueprint::{BuildBlueprint, BuildBlueprintView, PendingRemoval};
use crate::blueprint::new_node::{spec_find_edges, NewNode, NewNodeView};
use crate::blueprint::update_node::{items_of, UpdateNode, UpdateNodeView};
use crate::collections::seq_model::{
    drop_key, has_key, insert_unique, keep, lemma_skip_none, lemma_skip_step, lemma_take_all,
    lemma_take_step, lookup, minus_seq, put, union_seq, without, without_each,
};
use crate::collections::uid_index::uid_map_get;
use crate::collections::VecSet;
use crate::common::graph_error::decimal_text;
use crate::common::{
    EdgeDescriptor, EdgeDir, EdgeFinder, EdgeFinderView, GraphError, GraphErrorView, GraphTraits,
    GraphValue, Uid,
};
use crate::graph::reactive_node::read_reactive_node::NodeView;
use crate::graph::reactive_node::utils::EdgeMap;
use crate::graph::view_graph::ViewGraph;

verus! {

/// The error of an edge to an alias that no node of the transaction has.
pub open spec fn unresolved_alias(temp: Uid) -> GraphErrorView {
    GraphErrorView::Blueprint(
        "update_temp_ids: temp id not found in temp_id_map\nTemp Id: "@ + decimal_text(
            temp as nat,
        ),
    )
}

/// The error of deleting a node that the graph does not hold.
pub open spec fn delete_not_found(id: Uid) -> GraphErrorView {
    GraphErrorView::Blueprint("delete_node: node not found, ID: "@ + decimal_text(id as nat))
}

/// The error of a removal pattern that matches no edge of its node.
pub open spec fn edge_not_found(host: Uid) -> GraphErrorView {
    GraphErrorView::Blueprint("remove_edge: edge not found\nHost ID: "@ + decimal_text(host as nat))
}

/// The pattern of every edge that leads to node `id`.
pub open spec fn all_edges_to<EV>(id: Uid) -> EdgeFinderView<EV> {
    EdgeFinderView { target: Some(set![id]), match_all: Some(true), ..EdgeFinderView::any() }
}

/// Those of `entries` whose host is none of the `displaced` nodes, each
/// once, in order.
pub open spec fn entries_from_staying<TV, EV>(
    entries: Seq<EdgeDescriptor<EV>>,
    displaced: Seq<(Uid, NewNodeView<TV, EV>)>,
) -> Seq<EdgeDescriptor<EV>>
    decreases entries.len(),
{
    if entries.len() == 0 {
        entries
    } else if has_key(displaced, entries.last().host) {
        entries_from_staying(entries.drop_last(), displaced)
    } else {
        insert_unique(entries_from_staying(entries.drop_last(), displaced), entries.last())
    }
}

impl<TV, EV> BuildBlueprintView<TV, EV> {
    /// With the alias of one edge resolved: both sides of the edge are
    /// staged, and the edge is a way in where its host is a node of the
    /// graph. An alias that nothing stands behind is an error.
    pub open spec fn spec_resolve_temp_edge(self, temp: (EdgeDescriptor<EV>, bool)) -> Self {
        let (edge, is_new) = temp;
        if !self.temp_id_map.dom().contains(edge.target) {
            self.spec_fail(unresolved_alias(edge.target))
        } else {
            let resolved = EdgeDescriptor { target: self.temp_id_map[edge.target], ..edge };
            let inverse_staged = self.spec_add_edge(resolved.spec_invert(), true);
            let entered = if is_new {
                inverse_staged
            } else {
                inverse_staged.spec_add_entry_edge(resolved)
            };
            entered.spec_add_edge(resolved, is_new)
        }
    }

    /// With each of `temps` resolved, in order.
    pub open spec fn spec_resolve_temp_edges(self, temps: Seq<(EdgeDescriptor<EV>, bool)>) -> Self
        decreases temps.len(),
    {
        if temps.len() == 0 {
            self
        } else {
            self.spec_resolve_temp_edge(temps[0]).spec_resolve_temp_edges(temps.skip(1))
        }
    }

    /// With every edge to an alias resolved.
    pub open spec fn spec_update_temp_ids(self) -> Self {
        self.spec_resolve_temp_edges(self.temp_edges)
    }

    /// With the removal of `edge` from its host staged, and `edge` gone
    /// from whatever else was staged about it.
    pub open spec fn spec_remove_edge(self, edge: EdgeDescriptor<EV>) -> Self {
        let change = self.update_node_or_blank(edge.host);
        BuildBlueprintView {
            entry_edges: without(self.entry_edges, edge),
            displaced_entry_edges: without(self.displaced_entry_edges, edge),
            displaced_nodes: match lookup(self.displaced_nodes, edge.host) {
                Some(node) => put(
                    self.displaced_nodes,
                    edge.host,
                    NewNodeView { add_edges: without(node.add_edges, edge), ..node },
                ),
                None => self.displaced_nodes,
            },
            update_nodes: put(
                self.update_nodes,
                edge.host,
                UpdateNodeView {
                    add_edges: match change.add_edges {
                        Some(a) => Some(without(a, edge)),
                        None => None,
                    },
                    remove_edges: Some(insert_unique(items_of(change.remove_edges), edge)),
                    ..change
                },
            ),
            ..self
        }
    }

    /// The edges that remain to `node` once it has lost `edge`: those it
    /// has in the graph and those staged for it, without those staged for
    /// removal.
    pub open spec fn spec_remaining_edges<AV>(
        self,
        node: NodeView<TV, EV, AV>,
        edge: EdgeDescriptor<EV>,
    ) -> Seq<EdgeDescriptor<EV>> {
        let base = without(node.spec_all_edges(), edge);
        match lookup(self.update_nodes, node.id) {
            Some(change) => minus_seq(
                union_seq(base, items_of(change.add_edges)),
                items_of(change.remove_edges),
            ),
            None => base,
        }
    }

    /// With the host of `edge` catalogued as displaced where `edge` is the
    /// edge through which it is rendered, and with it every node that is
    /// rendered through it, to a depth of `fuel`. A node that is catalogued
    /// already is not looked at again.
    pub open spec fn spec_catalog<AV>(
        self,
        graph: Seq<(Uid, NodeView<TV, EV, AV>)>,
        edge: EdgeDescriptor<EV>,
        fuel: nat,
    ) -> Self
        decreases fuel, 0nat,
    {
        if fuel == 0 || edge.render_info != Some(EdgeDir::Recv) {
            self
        } else {
            match lookup(graph, edge.host) {
                None => self,
                Some(node) => {
                    if has_key(self.displaced_nodes, node.id) {
                        self
                    } else {
                        let remaining = self.spec_remaining_edges(node, edge);
                        (BuildBlueprintView {
                            displaced_nodes: put(
                                self.displaced_nodes,
                                node.id,
                                NewNodeView {
                                    add_edges: remaining,
                                    ..NewNodeView::blank(node.id, self.default_data)
                                },
                            ),
                            ..self
                        }).spec_catalog_all(graph, remaining, (fuel - 1) as nat)
                    }
                },
            }
        }
    }

    /// With the far end of each of `edges` catalogued where that edge is
    /// the one through which it is rendered.
    pub open spec fn spec_catalog_all<AV>(
        self,
        graph: Seq<(Uid, NodeView<TV, EV, AV>)>,
        edges: Seq<EdgeDescriptor<EV>>,
        fuel: nat,
    ) -> Self
        decreases fuel, edges.len() + 1,
    {
        if edges.len() == 0 {
            self
        } else {
            self.spec_catalog(graph, edges[0].spec_invert(), fuel).spec_catalog_all(
                graph,
                edges.skip(1),
                fuel,
            )
        }
    }

    /// With one way in from deleted node `id` closed: the edge is no way in
    /// any more, and the new node it led to loses its edges to `id`.
    pub open spec fn spec_close_entry(self, id: Uid, entry: EdgeDescriptor<EV>) -> Self {
        BuildBlueprintView {
            entry_edges: without(self.entry_edges, entry),
            new_nodes: match lookup(self.new_nodes, entry.target) {
                Some(node) => put(
                    self.new_nodes,
                    entry.target,
                    NewNodeView {
                        add_edges: without_each(
                            node.add_edges,
                            spec_find_edges(node.add_edges, all_edges_to(id)),
                        ),
                        ..node
                    },
                ),
                None => self.new_nodes,
            },
            ..self
        }
    }

    /// With each of `entries` closed, in order.
    pub open spec fn spec_close_entries(self, id: Uid, entries: Seq<EdgeDescriptor<EV>>) -> Self
        decreases entries.len(),
    {
        if entries.len() == 0 {
            self
        } else {
            self.spec_close_entry(id, entries[0]).spec_close_entries(id, entries.skip(1))
        }
    }

    /// With `edge` no longer staged for addition to its host, where a
    /// change to its host is staged.
    pub open spec fn spec_forget(self, edge: EdgeDescriptor<EV>) -> Self {
        match lookup(self.update_nodes, edge.host) {
            Some(change) => BuildBlueprintView {
                update_nodes: put(
                    self.update_nodes,
                    edge.host,
                    UpdateNodeView {
                        add_edges: match change.add_edges {
                            Some(a) => Some(without(a, edge)),
                            None => None,
                        },
                        ..change
                    },
                ),
                ..self
            },
            None => self,
        }
    }

    /// With the far side of one edge of a deleted node severed: its removal
    /// is staged there, the same edge without render mark is no longer
    /// staged for addition, and what the removal displaces is catalogued.
    pub open spec fn spec_sever<AV>(
        self,
        graph: Seq<(Uid, NodeView<TV, EV, AV>)>,
        edge: EdgeDescriptor<EV>,
        fuel: nat,
    ) -> Self {
        self.spec_remove_edge(edge.spec_invert()).spec_forget(
            edge.spec_invert().spec_with_render(None),
        ).spec_catalog(graph, edge.spec_invert(), fuel)
    }

    /// With each of `edges` severed, in order.
    pub open spec fn spec_sever_list<AV>(
        self,
        graph: Seq<(Uid, NodeView<TV, EV, AV>)>,
        edges: Seq<EdgeDescriptor<EV>>,
        fuel: nat,
    ) -> Self
        decreases edges.len(),
    {
        if edges.len() == 0 {
            self
        } else {
            self.spec_sever(graph, edges[0], fuel).spec_sever_list(graph, edges.skip(1), fuel)
        }
    }

    /// With each edge in the lists of `map` severed, list by list.
    pub open spec fn spec_sever_map<AV>(
        self,
        graph: Seq<(Uid, NodeView<TV, EV, AV>)>,
        map: Seq<(EV, Seq<EdgeDescriptor<EV>>)>,
        fuel: nat,
    ) -> Self
        decreases map.len(),
    {
        if map.len() == 0 {
            self
        } else {
            self.spec_sever_list(graph, map[0].1, fuel).spec_sever_map(graph, map.skip(1), fuel)
        }
    }

    /// With the deletion of node `id` carried through what is staged: ways
    /// in from it are closed, changes to it dropped, and every edge of it
    /// severed at its far side. A node that the graph does not hold is an
    /// error.
    pub open spec fn spec_delete_one<AV>(
        self,
        graph: Seq<(Uid, NodeView<TV, EV, AV>)>,
        id: Uid,
        fuel: nat,
    ) -> Self {
        let closed = self.spec_close_entries(
            id,
            keep(self.entry_edges, |e: EdgeDescriptor<EV>| e.host == id),
        );
        let dropped = BuildBlueprintView {
            update_nodes: drop_key(closed.update_nodes, id),
            ..closed
        };
        match lookup(graph, id) {
            Some(node) => dropped.spec_sever_map(graph, node.incoming_edges, fuel).spec_sever_map(
                graph,
                node.outgoing_edges,
                fuel,
            ),
            None => dropped.spec_fail(delete_not_found(id)),
        }
    }

    /// With each of `ids` deleted, in order.
    pub open spec fn spec_delete_each<AV>(
        self,
        graph: Seq<(Uid, NodeView<TV, EV, AV>)>,
        ids: Seq<Uid>,
        fuel: nat,
    ) -> Self
        decreases ids.len(),
    {
        if ids.len() == 0 {
            self
        } else {
            self.spec_delete_one(graph, ids[0], fuel).spec_delete_each(graph, ids.skip(1), fuel)
        }
    }

    /// With every deletion that is marked carried through what is staged.
    /// A cascade goes no deeper than the graph has nodes.
    pub open spec fn spec_finalize_delete_nodes<AV>(
        self,
        graph: Seq<(Uid, NodeView<TV, EV, AV>)>,
    ) -> Self {
        self.spec_delete_each(graph, self.delete_nodes, graph.len())
    }

    /// With one edge of the graph cut on both sides, and what that
    /// displaces catalogued.
    pub open spec fn spec_cut<AV>(
        self,
        graph: Seq<(Uid, NodeView<TV, EV, AV>)>,
        edge: EdgeDescriptor<EV>,
        fuel: nat,
    ) -> Self {
        self.spec_catalog(graph, edge.spec_invert(), fuel).spec_remove_edge(
            edge.spec_invert(),
        ).spec_catalog(graph, edge, fuel).spec_remove_edge(edge)
    }

    /// With each of `edges` cut, in order.
    pub open spec fn spec_cut_each<AV>(
        self,
        graph: Seq<(Uid, NodeView<TV, EV, AV>)>,
        edges: Seq<EdgeDescriptor<EV>>,
        fuel: nat,
    ) -> Self
        decreases edges.len(),
    {
        if edges.len() == 0 {
            self
        } else {
            self.spec_cut(graph, edges[0], fuel).spec_cut_each(graph, edges.skip(1), fuel)
        }
    }

    /// With one queued removal settled against the graph: the edges that
    /// the pattern finds on its node are cut. A pattern that finds none is
    /// an error.
    pub open spec fn spec_resolve_removal<AV>(
        self,
        graph: Seq<(Uid, NodeView<TV, EV, AV>)>,
        removal: (Uid, EdgeFinderView<EV>),
        fuel: nat,
    ) -> Self {
        match lookup(graph, removal.0) {
            None => self.spec_fail(edge_not_found(removal.0)),
            Some(node) => match node.spec_search_for_edge(removal.1) {
                None => self.spec_fail(edge_not_found(removal.0)),
                Some(found) => self.spec_cut_each(graph, found, fuel),
            },
        }
    }

    /// With each of `removals` settled, in order.
    pub open spec fn spec_resolve_removals<AV>(
        self,
        graph: Seq<(Uid, NodeView<TV, EV, AV>)>,
        removals: Seq<(Uid, EdgeFinderView<EV>)>,
        fuel: nat,
    ) -> Self
        decreases removals.len(),
    {
        if removals.len() == 0 {
            self
        } else {
            self.spec_resolve_removal(graph, removals[0], fuel).spec_resolve_removals(
                graph,
                removals.skip(1),
                fuel,
            )
        }
    }

    /// With every queued removal settled against the graph. A cascade goes
    /// no deeper than the graph has nodes.
    pub open spec fn spec_finalize_removed_edges<AV>(
        self,
        graph: Seq<(Uid, NodeView<TV, EV, AV>)>,
    ) -> Self {
        self.spec_resolve_removals(graph, self.remove_edge_finders, graph.len())
    }

    /// Whether `edge` of displaced node `id` leads to a node of the graph
    /// that stays where it is, so that the node can be entered through it.
    pub open spec fn spec_offers_entry<AV>(
        self,
        graph: Seq<(Uid, NodeView<TV, EV, AV>)>,
        id: Uid,
        edge: EdgeDescriptor<EV>,
    ) -> bool {
        has_key(graph, edge.target) && !self.delete_nodes.contains(id) && !has_key(
            self.displaced_nodes,
            edge.target,
        )
    }

    /// With the ways into displaced node `id` through `edges` noted.
    pub open spec fn spec_note_entries<AV>(
        self,
        graph: Seq<(Uid, NodeView<TV, EV, AV>)>,
        id: Uid,
        edges: Seq<EdgeDescriptor<EV>>,
    ) -> Self
        decreases edges.len(),
    {
        if edges.len() == 0 {
            self
        } else {
            (if self.spec_offers_entry(graph, id, edges[0]) {
                BuildBlueprintView {
                    displaced_entry_edges: insert_unique(
                        self.displaced_entry_edges,
                        edges[0].spec_invert(),
                    ),
                    ..self
                }
            } else {
                self
            }).spec_note_entries(graph, id, edges.skip(1))
        }
    }

    /// With the ways into each of `nodes` noted.
    pub open spec fn spec_note_all_entries<AV>(
        self,
        graph: Seq<(Uid, NodeView<TV, EV, AV>)>,
        nodes: Seq<(Uid, NewNodeView<TV, EV>)>,
    ) -> Self
        decreases nodes.len(),
    {
        if nodes.len() == 0 {
            self
        } else {
            self.spec_note_entries(graph, nodes[0].0, nodes[0].1.add_edges).spec_note_all_entries(
                graph,
                nodes.skip(1),
            )
        }
    }

    /// With the ways in from displaced nodes held back: a displaced node
    /// is no part of the graph to enter from until it is connected itself,
    /// and its edges are offered then.
    pub open spec fn spec_hold_back_entries(self) -> Self {
        BuildBlueprintView {
            entry_edges: entries_from_staying(self.entry_edges, self.displaced_nodes),
            ..self
        }
    }

    /// With the ways into every displaced node noted.
    pub open spec fn spec_find_potential_entries<AV>(
        self,
        graph: Seq<(Uid, NodeView<TV, EV, AV>)>,
    ) -> Self {
        self.spec_note_all_entries(graph, self.displaced_nodes)
    }
}

fn hosted_by<E: GraphTraits>(edges: &VecSet<EdgeDescriptor<E>>, id: Uid) -> (r: Vec<
    EdgeDescriptor<E>,
>)
    ensures
        crate::collections::seq_model::view_all(r@) == keep(
            edges@,
            |e: EdgeDescriptor<E::V>| e.host == id,
        ),
{
    let mut r: Vec<EdgeDescriptor<E>> = Vec::new();
    let mut i: usize = 0;
    while i < edges.len()
        invariant
            i <= edges@.len(),
            crate::collections::seq_model::view_all(r@) == keep(
                edges@.take(i as int),
                |e: EdgeDescriptor<E::V>| e.host == id,
            ),
        decreases edges@.len() - i,
    {
        proof {
            lemma_take_step(edges@, i as int);
        }
        if edges.get(i).host == id {
            let e = edges.get(i).duplicate();
            proof {
                crate::collections::seq_model::lemma_view_all_push(r@, e);
            }
            r.push(e);
        }
        i += 1;
    }
    proof {
        lemma_take_all(edges@);
    }
    r
}

fn duplicate_removals<E: GraphTraits>(pending: &Vec<PendingRemoval<E>>) -> (r: Vec<
    PendingRemoval<E>,
>)
    ensures
        crate::collections::seq_model::view_all(r@) == crate::collections::seq_model::view_all(
            pending@,
        ),
{
    let mut r: Vec<PendingRemoval<E>> = Vec::new();
    let mut i: usize = 0;
    while i < pending.len()
        invariant
            i <= pending.len(),
            crate::collections::seq_model::view_all(r@) == crate::collections::seq_model::view_all(
                pending@,
            ).take(i as int),
        decreases pending.len() - i,
    {
        let copy = PendingRemoval { host: pending[i].host, finder: pending[i].finder.duplicate() };
        proof {
            crate::collections::seq_model::lemma_view_all_push(r@, copy);
            lemma_take_step(crate::collections::seq_model::view_all(pending@), i as int);
        }
        r.push(copy);
        i += 1;
    }
    proof {
        lemma_take_all(crate::collections::seq_model::view_all(pending@));
    }
    r
}

fn remove_each<E: GraphTraits>(
    edges: &mut VecSet<EdgeDescriptor<E>>,
    items: &VecSet<EdgeDescriptor<E>>,
)
    ensures
        final(edges)@ == without_each(old(edges)@, items@),
{
    let mut i: usize = 0;
    proof {
        lemma_skip_none(items@);
    }
    while i < items.len()
        invariant
            i <= items@.len(),
            without_each(old(edges)@, items@) == without_each(edges@, items@.skip(i as int)),
        decreases items@.len() - i,
    {
        proof {
            lemma_skip_step(items@, i as int);
        }
        edges.remove(items.get(i));
        i += 1;
    }
}

impl<T: GraphTraits, E: GraphTraits> BuildBlueprint<T, E> {
    /// Stages the removal of `edge` from its host and drops `edge` from
    /// whatever else is staged about it.
    pub fn remove_edge(&mut self, edge: EdgeDescriptor<E>)
        ensures
            final(self)@ == old(self)@.spec_remove_edge(edge@),
    {
        let host = edge.host;
        self.entry_edges.remove(&edge);
        self.displaced_entry_edges.remove(&edge);
        let displaced_node = match self.displaced_nodes.get(&host) {
            Some(n) => Some(n.duplicate()),
            None => None,
        };
        match displaced_node {
            Some(node) => {
                let mut node = node;
                node.add_edges.remove(&edge);
                self.displaced_nodes.insert(host, node);
            },
            None => {},
        }
        let mut update_node = match self.update_nodes.get(&host) {
            Some(n) => n.duplicate(),
            None => UpdateNode::new(host),
        };
        update_node.add_edges = match update_node.add_edges {
            Some(add_edges) => {
                let mut add_edges = add_edges;
                add_edges.remove(&edge);
                Some(add_edges)
            },
            None => None,
        };
        let mut remove_edges = match update_node.remove_edges {
            Some(s) => s,
            None => VecSet::new(),
        };
        remove_edges.insert(edge);
        update_node.remove_edges = Some(remove_edges);
        self.update_nodes.insert(host, update_node);
    }

    /// Drops `edge` from what is staged for addition to its host.
    pub fn forget(&mut self, edge: &EdgeDescriptor<E>)
        ensures
            final(self)@ == old(self)@.spec_forget(edge@),
    {
        let staged = match self.update_nodes.get(&edge.host) {
            Some(n) => Some(n.duplicate()),
            None => None,
        };
        match staged {
            Some(update_node) => {
                let mut update_node = update_node;
                update_node.add_edges = match update_node.add_edges {
                    Some(add_edges) => {
                        let mut add_edges = add_edges;
                        add_edges.remove(edge);
                        Some(add_edges)
                    },
                    None => None,
                };
                self.update_nodes.insert(edge.host, update_node);
            },
            None => {},
        }
    }

    /// Resolves the alias of every edge that was staged with one.
    pub fn update_temp_ids(&mut self)
        ensures
            final(self)@ == old(self)@.spec_update_temp_ids(),
    {
        let temps = self.temp_edges.duplicate();
        let mut i: usize = 0;
        proof {
            lemma_skip_none(temps@);
        }
        while i < temps.len()
            invariant
                i <= temps@.len(),
                old(self)@.spec_resolve_temp_edges(temps@) == self@.spec_resolve_temp_edges(
                    temps@.skip(i as int),
                ),
            decreases temps@.len() - i,
        {
            proof {
                lemma_skip_step(temps@, i as int);
            }
            let temp = temps.get(i);
            match uid_map_get(&self.temp_id_map, temp.edge.target) {
                None => {
                    self.fail(
                        GraphError::blueprint_about(
                            "update_temp_ids: temp id not found in temp_id_map\nTemp Id: ",
                            temp.edge.target,
                        ),
                    );
                },
                Some(target) => {
                    let mut updated_edge = temp.edge.duplicate();
                    updated_edge.target = target;
                    self.add_edge(updated_edge.invert(), true);
                    if !temp.is_new {
                        self.add_entry_edge(updated_edge.duplicate());
                    }
                    self.add_edge(updated_edge, temp.is_new);
                },
            }
            i += 1;
        }
    }

    /// The edges that remain to `node` once it has lost `edge`.
    fn remaining_edges<A: GraphTraits>(
        &self,
        node: &crate::graph::reactive_node::read_reactive_node::ReadReactiveNode<T, E, A>,
        edge: &EdgeDescriptor<E>,
    ) -> (r: VecSet<EdgeDescriptor<E>>)
        ensures
            r@ == self@.spec_remaining_edges(node@, edge@),
    {
        let mut all_edges_except_current_one = node.convert_all_edges_to_hashset();
        all_edges_except_current_one.remove(edge);
        match self.update_nodes.get(&node.id) {
            Some(update_node) => {
                let with_added = match &update_node.add_edges {
                    Some(add_edges) => all_edges_except_current_one.union(add_edges),
                    None => all_edges_except_current_one,
                };
                match &update_node.remove_edges {
                    Some(remove_edges) => with_added.relative_complement(remove_edges),
                    None => {
                        proof {
                            crate::collections::seq_model::lemma_minus_nothing(with_added@);
                        }
                        with_added
                    },
                }
            },
            None => all_edges_except_current_one,
        }
    }

    /// Catalogues the host of `edge_to_check` as displaced where that edge
    /// is the one through which it is rendered, and with it every node that
    /// is rendered through it.
    pub fn find_and_catalog_displaced_nodes<A: GraphTraits>(
        &mut self,
        graph: &ViewGraph<T, E, A>,
        edge_to_check: &EdgeDescriptor<E>,
        fuel: usize,
    )
        ensures
            final(self)@ == old(self)@.spec_catalog(graph@.nodes, edge_to_check@, fuel as nat),
        decreases fuel, 0nat,
    {
        if fuel == 0 {
            return ;
        }
        let renders_host = match edge_to_check.render_info {
            Some(info) => info == EdgeDir::Recv,
            None => false,
        };
        if !renders_host {
            return ;
        }
        match graph.nodes.get(&edge_to_check.host) {
            None => {},
            Some(found_node) => {
                if self.displaced_nodes.contains_key(&found_node.id) {
                    return ;
                }
                let remaining = self.remaining_edges(found_node, edge_to_check);
                let mut converted_node = NewNode::<T, E>::new().set_id(found_node.id);
                converted_node.add_edges = remaining.duplicate();
                self.displaced_nodes.insert(found_node.id, converted_node);
                self.catalog_all(graph, &remaining, fuel - 1);
            },
        }
    }

    fn catalog_all<A: GraphTraits>(
        &mut self,
        graph: &ViewGraph<T, E, A>,
        edges: &VecSet<EdgeDescriptor<E>>,
        fuel: usize,
    )
        ensures
            final(self)@ == old(self)@.spec_catalog_all(graph@.nodes, edges@, fuel as nat),
        decreases fuel, edges@.len() + 1,
    {
        let mut i: usize = 0;
        proof {
            lemma_skip_none(edges@);
        }
        while i < edges.len()
            invariant
                i <= edges@.len(),
                old(self)@.spec_catalog_all(graph@.nodes, edges@, fuel as nat)
                    == self@.spec_catalog_all(graph@.nodes, edges@.skip(i as int), fuel as nat),
            decreases edges@.len() - i,
        {
            proof {
                lemma_skip_step(edges@, i as int);
            }
            let inverted = edges.get(i).invert();
            self.find_and_catalog_displaced_nodes(graph, &inverted, fuel);
            i += 1;
        }
    }

    fn close_entries(&mut self, id: Uid, entries: &Vec<EdgeDescriptor<E>>)
        ensures
            final(self)@ == old(self)@.spec_close_entries(
                id,
                crate::collections::seq_model::view_all(entries@),
            ),
    {
        let ghost all = crate::collections::seq_model::view_all(entries@);
        let mut i: usize = 0;
        proof {
            lemma_skip_none(all);
        }
        while i < entries.len()
            invariant
                i <= entries.len(),
                all == crate::collections::seq_model::view_all(entries@),
                old(self)@.spec_close_entries(id, all) == self@.spec_close_entries(
                    id,
                    all.skip(i as int),
                ),
            decreases entries.len() - i,
        {
            proof {
                lemma_skip_step(all, i as int);
            }
            let found_edge = &entries[i];
            self.entry_edges.remove(found_edge);
            let new_node = match self.new_nodes.get(&found_edge.target) {
                Some(n) => Some(n.duplicate()),
                None => None,
            };
            match new_node {
                Some(node) => {
                    let mut node = node;
                    let finder = EdgeFinder::<E>::new().target(id).match_all();
                    let found_actual_edges = node.find_edges(&finder);
                    remove_each(&mut node.add_edges, &found_actual_edges);
                    self.new_nodes.insert(found_edge.target, node);
                },
                None => {},
            }
            i += 1;
        }
    }

    fn sever_list<A: GraphTraits>(
        &mut self,
        graph: &ViewGraph<T, E, A>,
        edges: &VecSet<EdgeDescriptor<E>>,
        fuel: usize,
    )
        ensures
            final(self)@ == old(self)@.spec_sever_list(graph@.nodes, edges@, fuel as nat),
    {
        let mut i: usize = 0;
        proof {
            lemma_skip_none(edges@);
        }
        while i < edges.len()
            invariant
                i <= edges@.len(),
                old(self)@.spec_sever_list(graph@.nodes, edges@, fuel as nat)
                    == self@.spec_sever_list(graph@.nodes, edges@.skip(i as int), fuel as nat),
            decreases edges@.len() - i,
        {
            proof {
                lemma_skip_step(edges@, i as int);
            }
            let inverted_edge = edges.get(i).invert();
            self.remove_edge(inverted_edge.duplicate());
            self.forget(&inverted_edge.with_render(None));
            self.find_and_catalog_displaced_nodes(graph, &inverted_edge, fuel);
            i += 1;
        }
    }

    fn sever_map<A: GraphTraits>(
        &mut self,
        graph: &ViewGraph<T, E, A>,
        map: &EdgeMap<E>,
        fuel: usize,
    )
        ensures
            final(self)@ == old(self)@.spec_sever_map(graph@.nodes, map@, fuel as nat),
    {
        let mut i: usize = 0;
        proof {
            lemma_skip_none(map@);
        }
        while i < map.len()
            invariant
                i <= map@.len(),
                old(self)@.spec_sever_map(graph@.nodes, map@, fuel as nat) == self@.spec_sever_map(
                    graph@.nodes,
                    map@.skip(i as int),
                    fuel as nat,
                ),
            decreases map@.len() - i,
        {
            proof {
                lemma_skip_step(map@, i as int);
            }
            self.sever_list(graph, map.value_at(i), fuel);
            i += 1;
        }
    }

    fn delete_one<A: GraphTraits>(&mut self, graph: &ViewGraph<T, E, A>, node_id: Uid, fuel: usize)
        ensures
            final(self)@ == old(self)@.spec_delete_one(graph@.nodes, node_id, fuel as nat),
    {
        let found_entry_edges = hosted_by(&self.entry_edges, node_id);
        self.close_entries(node_id, &found_entry_edges);
        self.update_nodes.remove(&node_id);
        match graph.nodes.get(&node_id) {
            Some(graph_node) => {
                self.sever_map(graph, &graph_node.incoming_edges, fuel);
                self.sever_map(graph, &graph_node.outgoing_edges, fuel);
            },
            None => {
                self.fail(GraphError::blueprint_about("delete_node: node not found, ID: ", node_id));
            },
        }
    }

    /// Carries every marked deletion through what is staged.
    pub fn finalize_delete_nodes<A: GraphTraits>(&mut self, graph: &ViewGraph<T, E, A>)
        ensures
            final(self)@ == old(self)@.spec_finalize_delete_nodes(graph@.nodes),
    {
        let ids = self.delete_nodes.duplicate();
        let fuel = graph.nodes.len();
        let mut i: usize = 0;
        proof {
            lemma_skip_none(ids@);
        }
        while i < ids.len()
            invariant
                i <= ids@.len(),
                fuel == graph@.nodes.len(),
                old(self)@.spec_delete_each(graph@.nodes, ids@, fuel as nat)
                    == self@.spec_delete_each(graph@.nodes, ids@.skip(i as int), fuel as nat),
            decreases ids@.len() - i,
        {
            proof {
                lemma_skip_step(ids@, i as int);
            }
            self.delete_one(graph, *ids.get(i), fuel);
            i += 1;
        }
    }

    fn cut_each<A: GraphTraits>(
        &mut self,
        graph: &ViewGraph<T, E, A>,
        edges: &VecSet<EdgeDescriptor<E>>,
        fuel: usize,
    )
        ensures
            final(self)@ == old(self)@.spec_cut_each(graph@.nodes, edges@, fuel as nat),
    {
        let mut i: usize = 0;
        proof {
            lemma_skip_none(edges@);
        }
        while i < edges.len()
            invariant
                i <= edges@.len(),
                old(self)@.spec_cut_each(graph@.nodes, edges@, fuel as nat) == self@.spec_cut_each(
                    graph@.nodes,
                    edges@.skip(i as int),
                    fuel as nat,
                ),
            decreases edges@.len() - i,
        {
            proof {
                lemma_skip_step(edges@, i as int);
            }
            let found_edge = edges.get(i);
            let inverted_edge = found_edge.invert();
            self.find_and_catalog_displaced_nodes(graph, &inverted_edge, fuel);
            self.remove_edge(inverted_edge);
            self.find_and_catalog_displaced_nodes(graph, found_edge, fuel);
            self.remove_edge(found_edge.duplicate());
            i += 1;
        }
    }

    /// Settles every queued removal against the graph.
    pub fn finalize_removed_edges<A: GraphTraits>(&mut self, graph: &ViewGraph<T, E, A>)
        ensures
            final(self)@ == old(self)@.spec_finalize_removed_edges(graph@.nodes),
    {
        let fuel = graph.nodes.len();
        let pending = duplicate_removals(&self.remove_edge_finders);
        let ghost removals = self@.remove_edge_finders;
        let mut i: usize = 0;
        proof {
            lemma_skip_none(removals);
        }
        while i < pending.len()
            invariant
                i <= pending.len(),
                removals == crate::collections::seq_model::view_all(pending@),
                fuel == graph@.nodes.len(),
                old(self)@.spec_resolve_removals(graph@.nodes, removals, fuel as nat)
                    == self@.spec_resolve_removals(
                    graph@.nodes,
                    removals.skip(i as int),
                    fuel as nat,
                ),
            decreases pending.len() - i,
        {
            proof {
                lemma_skip_step(removals, i as int);
            }
            let host = pending[i].host;
            let found_edges = match graph.nodes.get(&host) {
                Some(graph_node) => graph_node.search_for_edge(&pending[i].finder),
                None => None,
            };
            match found_edges {
                None => {
                    self.fail(
                        GraphError::blueprint_about("remove_edge: edge not found\nHost ID: ", host),
                    );
                },
                Some(found_edges) => {
                    self.cut_each(graph, &found_edges, fuel);
                },
            }
            i += 1;
        }
    }

    fn note_entries<A: GraphTraits>(
        &mut self,
        graph: &ViewGraph<T, E, A>,
        id: Uid,
        edges: &VecSet<EdgeDescriptor<E>>,
    )
        ensures
            final(self)@ == old(self)@.spec_note_entries(graph@.nodes, id, edges@),
    {
        let mut i: usize = 0;
        proof {
            lemma_skip_none(edges@);
        }
        while i < edges.len()
            invariant
                i <= edges@.len(),
                old(self)@.spec_note_entries(graph@.nodes, id, edges@) == self@.spec_note_entries(
                    graph@.nodes,
                    id,
                    edges@.skip(i as int),
                ),
            decreases edges@.len() - i,
        {
            proof {
                lemma_skip_step(edges@, i as int);
            }
            let edge = edges.get(i);
            if graph.nodes.contains_key(&edge.target) && !self.delete_nodes.contains(&id)
                && !self.displaced_nodes.contains_key(&edge.target) {
                self.displaced_entry_edges.insert(edge.invert());
            }
            i += 1;
        }
    }

    /// Holds back the ways in from displaced nodes.
    pub fn hold_back_entries(&mut self)
        ensures
            final(self)@ == old(self)@.spec_hold_back_entries(),
    {
        let mut kept: VecSet<EdgeDescriptor<E>> = VecSet::new();
        let mut i: usize = 0;
        while i < self.entry_edges.len()
            invariant
                i <= self.entry_edges@.len(),
                self@ == old(self)@,
                kept@ == entries_from_staying(
                    self@.entry_edges.take(i as int),
                    self@.displaced_nodes,
                ),
            decreases self.entry_edges@.len() - i,
        {
            proof {
                lemma_take_step(self.entry_edges@, i as int);
            }
            if !self.displaced_nodes.contains_key(&self.entry_edges.get(i).host) {
                kept.insert(self.entry_edges.get(i).duplicate());
            }
            i += 1;
        }
        proof {
            lemma_take_all(self.entry_edges@);
        }
        self.entry_edges = kept;
    }

    /// Notes the ways into every displaced node.
    pub fn find_potential_entries_for_displaced_nodes<A: GraphTraits>(
        &mut self,
        graph: &ViewGraph<T, E, A>,
    )
        ensures
            final(self)@ == old(self)@.spec_find_potential_entries(graph@.nodes),
    {
        let nodes = self.displaced_nodes.duplicate_with(NewNode::<T, E>::duplicate);
        let mut i: usize = 0;
        proof {
            lemma_skip_none(nodes@);
        }
        while i < nodes.len()
            invariant
                i <= nodes@.len(),
                old(self)@.spec_note_all_entries(graph@.nodes, nodes@)
                    == self@.spec_note_all_entries(graph@.nodes, nodes@.skip(i as int)),
            decreases nodes@.len() - i,
        {
            proof {
                lemma_skip_step(nodes@, i as int);
            }
            self.note_entries(graph, *nodes.key_at(i), &nodes.value_at(i).add_edges);
            i += 1;
        }
    }
}

} // verus!
