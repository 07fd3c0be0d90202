//! Render edges where a transaction deletes nodes and removes edges without
//! displacing a node.

use vstd::prelude::*;

use crate::blueprint::build_blueprint::{AllowedRenderEdgeSpecifier, BuildBlueprintView};
use crate::blueprint::cascade::all_edges_to;
use crate::blueprint::finalize::Sealed;
use crate::blueprint::finalized_blueprint::FinalizedBlueprintView;
use crate::blueprint::new_node::{spec_find_edges, NewNodeView};
use crate::blueprint::render::spec_render_patterns;
use crate::collections::seq_facts::{
    lemma_lookup_put_other, lemma_lookup_put_same, lemma_without_between,
};
use crate::collections::seq_model::{drop_key, has_key, keep, lookup, put, without_each};
use crate::common::{EdgeDescriptor, EdgeDir, EdgeFinderView, GraphErrorView, Uid};
use crate::graph::reactive_node::read_reactive_node::NodeView;
use crate::laws::render::{
    law_one_render_edge_chosen, lemma_resolve_keeps, lemma_seal_grows, render_parent_count,
    renders_host, root_of, unrendered,
};

verus! {

/// Whether `after` has chosen no render edge if `before` has not, displaces
/// no fewer nodes, and knows the same aliases.
pub open spec fn keeps_unrendered<TV, EV>(
    after: BuildBlueprintView<TV, EV>,
    before: BuildBlueprintView<TV, EV>,
) -> bool {
    &&& before.unrendered_yet() ==> after.unrendered_yet()
    &&& after.displaced_nodes.len() >= before.displaced_nodes.len()
    &&& after.temp_id_map == before.temp_id_map
}

/// What is left of a list after some items are taken out was in the list.
pub proof fn lemma_without_each_within<A>(s: Seq<A>, items: Seq<A>, a: A)
    ensures
        without_each(s, items).contains(a) ==> s.contains(a),
    decreases items.len(),
{
    if items.len() > 0 {
        lemma_without_each_within(crate::collections::seq_model::without(s, items[0]), items.skip(1), a);
        lemma_without_between(s, items[0], a);
    }
}

/// Staging the removal of an edge chooses no render edge.
pub proof fn lemma_remove_edge_keeps<TV, EV>(
    staged: BuildBlueprintView<TV, EV>,
    edge: EdgeDescriptor<EV>,
)
    ensures
        keeps_unrendered(staged.spec_remove_edge(edge), staged),
{
    let after = staged.spec_remove_edge(edge);
    match lookup(staged.displaced_nodes, edge.host) {
        Some(node) => {
            lemma_lookup_put_same(
                staged.displaced_nodes,
                edge.host,
                NewNodeView {
                    add_edges: crate::collections::seq_model::without(node.add_edges, edge),
                    ..node
                },
            );
        },
        None => {},
    }
    if staged.unrendered_yet() {
        assert forall|e: EdgeDescriptor<EV>| after.entry_edges.contains(e) implies !renders_host(
            e,
        ) by {
            lemma_without_between(staged.entry_edges, edge, e);
        }
    }
}

/// Cataloguing displaced nodes chooses no render edge.
pub proof fn lemma_catalog_keeps<TV, EV, AV>(
    staged: BuildBlueprintView<TV, EV>,
    graph: Seq<(Uid, NodeView<TV, EV, AV>)>,
    edge: EdgeDescriptor<EV>,
    fuel: nat,
)
    ensures
        keeps_unrendered(staged.spec_catalog(graph, edge, fuel), staged),
        staged.spec_catalog(graph, edge, fuel).new_nodes == staged.new_nodes,
        staged.spec_catalog(graph, edge, fuel).entry_edges == staged.entry_edges,
        staged.spec_catalog(graph, edge, fuel).displaced_entry_edges
            == staged.displaced_entry_edges,
    decreases fuel, 0nat,
{
    if fuel != 0 && edge.render_info == Some(EdgeDir::Recv) {
        match lookup(graph, edge.host) {
            None => {},
            Some(node) => {
                if !has_key(staged.displaced_nodes, node.id) {
                    let remaining = staged.spec_remaining_edges(node, edge);
                    let record = NewNodeView {
                        add_edges: remaining,
                        ..NewNodeView::blank(node.id, staged.default_data)
                    };
                    let next = BuildBlueprintView {
                        displaced_nodes: put(staged.displaced_nodes, node.id, record),
                        ..staged
                    };
                    lemma_lookup_put_same(staged.displaced_nodes, node.id, record);
                    lemma_catalog_all_keeps(next, graph, remaining, (fuel - 1) as nat);
                }
            },
        }
    }
}

/// Cataloguing what a list of edges displaces chooses no render edge.
pub proof fn lemma_catalog_all_keeps<TV, EV, AV>(
    staged: BuildBlueprintView<TV, EV>,
    graph: Seq<(Uid, NodeView<TV, EV, AV>)>,
    edges: Seq<EdgeDescriptor<EV>>,
    fuel: nat,
)
    ensures
        keeps_unrendered(staged.spec_catalog_all(graph, edges, fuel), staged),
        staged.spec_catalog_all(graph, edges, fuel).new_nodes == staged.new_nodes,
        staged.spec_catalog_all(graph, edges, fuel).entry_edges == staged.entry_edges,
        staged.spec_catalog_all(graph, edges, fuel).displaced_entry_edges
            == staged.displaced_entry_edges,
    decreases fuel, edges.len() + 1,
{
    if edges.len() > 0 {
        lemma_catalog_keeps(staged, graph, edges[0].spec_invert(), fuel);
        lemma_catalog_all_keeps(
            staged.spec_catalog(graph, edges[0].spec_invert(), fuel),
            graph,
            edges.skip(1),
            fuel,
        );
    }
}

/// Closing ways in chooses no render edge.
pub proof fn lemma_close_entries_keeps<TV, EV>(
    staged: BuildBlueprintView<TV, EV>,
    id: Uid,
    entries: Seq<EdgeDescriptor<EV>>,
)
    ensures
        keeps_unrendered(staged.spec_close_entries(id, entries), staged),
        staged.spec_close_entries(id, entries).displaced_nodes == staged.displaced_nodes,
    decreases entries.len(),
{
    if entries.len() > 0 {
        let entry = entries[0];
        let first = staged.spec_close_entry(id, entry);
        if staged.unrendered_yet() {
            assert forall|e: EdgeDescriptor<EV>| first.entry_edges.contains(e) implies !renders_host(
                e,
            ) by {
                lemma_without_between(staged.entry_edges, entry, e);
            }
            match lookup(staged.new_nodes, entry.target) {
                None => {},
                Some(node) => {
                    let found = spec_find_edges(node.add_edges, all_edges_to(id));
                    let trimmed = NewNodeView {
                        add_edges: without_each(node.add_edges, found),
                        ..node
                    };
                    lemma_lookup_put_same(staged.new_nodes, entry.target, trimmed);
                    assert(unrendered(trimmed.add_edges)) by {
                        assert forall|e: EdgeDescriptor<EV>|
                            trimmed.add_edges.contains(e) implies !renders_host(e) by {
                            lemma_without_each_within(node.add_edges, found, e);
                        }
                    }
                    assert forall|n: Uid| #[trigger]
                        lookup(first.new_nodes, n) is Some implies unrendered(
                        lookup(first.new_nodes, n)->0.add_edges,
                    ) by {
                        if n != entry.target {
                            lemma_lookup_put_other(staged.new_nodes, entry.target, trimmed, n);
                        }
                    }
                },
            }
        }
        lemma_close_entries_keeps(first, id, entries.skip(1));
    }
}

/// Severing edges chooses no render edge.
pub proof fn lemma_sever_list_keeps<TV, EV, AV>(
    staged: BuildBlueprintView<TV, EV>,
    graph: Seq<(Uid, NodeView<TV, EV, AV>)>,
    edges: Seq<EdgeDescriptor<EV>>,
    fuel: nat,
)
    ensures
        keeps_unrendered(staged.spec_sever_list(graph, edges, fuel), staged),
    decreases edges.len(),
{
    if edges.len() > 0 {
        let mirror = edges[0].spec_invert();
        lemma_remove_edge_keeps(staged, mirror);
        lemma_catalog_keeps(
            staged.spec_remove_edge(mirror).spec_forget(mirror.spec_with_render(None)),
            graph,
            mirror,
            fuel,
        );
        lemma_sever_list_keeps(staged.spec_sever(graph, edges[0], fuel), graph, edges.skip(1), fuel);
    }
}

/// Severing the edges in the lists of a map chooses no render edge.
pub proof fn lemma_sever_map_keeps<TV, EV, AV>(
    staged: BuildBlueprintView<TV, EV>,
    graph: Seq<(Uid, NodeView<TV, EV, AV>)>,
    map: Seq<(EV, Seq<EdgeDescriptor<EV>>)>,
    fuel: nat,
)
    ensures
        keeps_unrendered(staged.spec_sever_map(graph, map, fuel), staged),
    decreases map.len(),
{
    if map.len() > 0 {
        lemma_sever_list_keeps(staged, graph, map[0].1, fuel);
        lemma_sever_map_keeps(
            staged.spec_sever_list(graph, map[0].1, fuel),
            graph,
            map.skip(1),
            fuel,
        );
    }
}

/// Carrying deletions through what is staged chooses no render edge.
pub proof fn lemma_delete_each_keeps<TV, EV, AV>(
    staged: BuildBlueprintView<TV, EV>,
    graph: Seq<(Uid, NodeView<TV, EV, AV>)>,
    ids: Seq<Uid>,
    fuel: nat,
)
    ensures
        keeps_unrendered(staged.spec_delete_each(graph, ids, fuel), staged),
    decreases ids.len(),
{
    if ids.len() > 0 {
        let id = ids[0];
        let entries = keep(staged.entry_edges, |e: EdgeDescriptor<EV>| e.host == id);
        lemma_close_entries_keeps(staged, id, entries);
        let closed = staged.spec_close_entries(id, entries);
        let dropped = BuildBlueprintView { update_nodes: drop_key(closed.update_nodes, id), ..closed };
        assert(keeps_unrendered(dropped, staged));
        let first = staged.spec_delete_one(graph, id, fuel);
        match lookup(graph, id) {
            Some(node) => {
                lemma_sever_map_keeps(dropped, graph, node.incoming_edges, fuel);
                lemma_sever_map_keeps(
                    dropped.spec_sever_map(graph, node.incoming_edges, fuel),
                    graph,
                    node.outgoing_edges,
                    fuel,
                );
            },
            None => {},
        }
        assert(keeps_unrendered(first, staged));
        lemma_delete_each_keeps(first, graph, ids.skip(1), fuel);
    }
}

/// Cutting edges chooses no render edge.
pub proof fn lemma_cut_each_keeps<TV, EV, AV>(
    staged: BuildBlueprintView<TV, EV>,
    graph: Seq<(Uid, NodeView<TV, EV, AV>)>,
    edges: Seq<EdgeDescriptor<EV>>,
    fuel: nat,
)
    ensures
        keeps_unrendered(staged.spec_cut_each(graph, edges, fuel), staged),
    decreases edges.len(),
{
    if edges.len() > 0 {
        let edge = edges[0];
        let mirror = edge.spec_invert();
        lemma_catalog_keeps(staged, graph, mirror, fuel);
        let a = staged.spec_catalog(graph, mirror, fuel);
        lemma_remove_edge_keeps(a, mirror);
        let b = a.spec_remove_edge(mirror);
        lemma_catalog_keeps(b, graph, edge, fuel);
        let c = b.spec_catalog(graph, edge, fuel);
        lemma_remove_edge_keeps(c, edge);
        lemma_cut_each_keeps(staged.spec_cut(graph, edge, fuel), graph, edges.skip(1), fuel);
    }
}

/// Settling queued removals chooses no render edge.
pub proof fn lemma_removals_keep<TV, EV, AV>(
    staged: BuildBlueprintView<TV, EV>,
    graph: Seq<(Uid, NodeView<TV, EV, AV>)>,
    removals: Seq<(Uid, EdgeFinderView<EV>)>,
    fuel: nat,
)
    ensures
        keeps_unrendered(staged.spec_resolve_removals(graph, removals, fuel), staged),
    decreases removals.len(),
{
    if removals.len() > 0 {
        let first = staged.spec_resolve_removal(graph, removals[0], fuel);
        assert(keeps_unrendered(first, staged)) by {
            match lookup(graph, removals[0].0) {
                None => {},
                Some(node) => match node.spec_search_for_edge(removals[0].1) {
                    None => {},
                    Some(found) => {
                        lemma_cut_each_keeps(staged, graph, found, fuel);
                    },
                },
            }
        }
        lemma_removals_keep(first, graph, removals.skip(1), fuel);
    }
}

/// Where carrying deletions and removals through a transaction that has
/// not chosen any render edge yet displaces no node, no render edge is
/// chosen by it, and the aliases stay as they were.
pub proof fn lemma_cascade_keeps<TV, EV, AV>(
    staged: BuildBlueprintView<TV, EV>,
    graph: Seq<(Uid, NodeView<TV, EV, AV>)>,
)
    requires
        staged.unrendered_yet(),
        staged.aliases_unrendered(),
    ensures
        staged.spec_cascaded(graph).temp_id_map == staged.temp_id_map,
        staged.spec_cascaded(graph).displaced_nodes.len() == 0 ==> staged.spec_cascaded(
            graph,
        ).unrendered_yet(),
{
    lemma_resolve_keeps(staged, staged.temp_edges);
    let resolved = staged.spec_update_temp_ids();
    lemma_delete_each_keeps(resolved, graph, resolved.delete_nodes, graph.len());
    let deleted = resolved.spec_finalize_delete_nodes(graph);
    lemma_removals_keep(deleted, graph, deleted.remove_edge_finders, graph.len());
    let removed = deleted.spec_finalize_removed_edges(graph);
    crate::laws::balance::lemma_note_all_frame(removed, graph, removed.displaced_nodes);
    let noted = removed.spec_find_potential_entries(graph);
    let held = noted.spec_hold_back_entries();
    assert(staged.spec_cascaded(graph) == held);
    if removed.displaced_nodes.len() == 0 {
        assert(noted == removed);
        if removed.unrendered_yet() {
            assert forall|e: EdgeDescriptor<EV>| held.entry_edges.contains(e) implies !renders_host(
                e,
            ) by {
                crate::laws::cascade::lemma_staying_members(
                    noted.entry_edges,
                    noted.displaced_nodes,
                    e,
                );
            }
        }
    } else {
        lemma_note_all_displaced(removed, graph, removed.displaced_nodes);
    }
}

/// Noting ways in displaces no node and leaves the aliases as they were.
pub proof fn lemma_note_all_displaced<TV, EV, AV>(
    staged: BuildBlueprintView<TV, EV>,
    graph: Seq<(Uid, NodeView<TV, EV, AV>)>,
    nodes: Seq<(Uid, NewNodeView<TV, EV>)>,
)
    ensures
        staged.spec_note_all_entries(graph, nodes).displaced_nodes == staged.displaced_nodes,
        staged.spec_note_all_entries(graph, nodes).temp_id_map == staged.temp_id_map,
    decreases nodes.len(),
{
    if nodes.len() > 0 {
        lemma_note_entries_displaced(staged, graph, nodes[0].0, nodes[0].1.add_edges);
        lemma_note_all_displaced(
            staged.spec_note_entries(graph, nodes[0].0, nodes[0].1.add_edges),
            graph,
            nodes.skip(1),
        );
    }
}

/// Noting the ways into one node displaces no node and leaves the aliases
/// as they were.
pub proof fn lemma_note_entries_displaced<TV, EV, AV>(
    staged: BuildBlueprintView<TV, EV>,
    graph: Seq<(Uid, NodeView<TV, EV, AV>)>,
    id: Uid,
    edges: Seq<EdgeDescriptor<EV>>,
)
    ensures
        staged.spec_note_entries(graph, id, edges).displaced_nodes == staged.displaced_nodes,
        staged.spec_note_entries(graph, id, edges).temp_id_map == staged.temp_id_map,
    decreases edges.len(),
{
    if edges.len() > 0 {
        let first = if staged.spec_offers_entry(graph, id, edges[0]) {
            BuildBlueprintView {
                displaced_entry_edges: crate::collections::seq_model::insert_unique(
                    staged.displaced_entry_edges,
                    edges[0].spec_invert(),
                ),
                ..staged
            }
        } else {
            staged
        };
        lemma_note_entries_displaced(first, graph, id, edges.skip(1));
    }
}

/// Where a transaction that has not chosen any render edge yet, and whose
/// deletions and removals displace no node, is finalized with success,
/// every node that it creates has one edge through which it is rendered,
/// but for the root, which has none.
pub proof fn law_render_uniqueness_where_none_is_displaced<TV, EV, AV>(
    staged: BuildBlueprintView<TV, EV>,
    graph: Seq<(Uid, NodeView<TV, EV, AV>)>,
    specifiers: Option<Seq<AllowedRenderEdgeSpecifier<EV>>>,
    entry_point: Option<Uid>,
    sealed: FinalizedBlueprintView<TV, EV>,
)
    requires
        staged.unrendered_yet(),
        staged.aliases_unrendered(),
        staged.spec_cascaded(graph).displaced_nodes.len() == 0,
        staged.spec_finalize(graph, specifiers, entry_point) == Ok::<
            FinalizedBlueprintView<TV, EV>,
            Seq<GraphErrorView>,
        >(sealed),
    ensures
        forall|id: Uid| #[trigger]
            lookup(sealed.new_nodes, id) is Some ==> render_parent_count(
                lookup(sealed.new_nodes, id)->0.add_edges,
            ) == (if root_of(staged, entry_point) == Some(id) {
                0nat
            } else {
                1nat
            }),
{
    let patterns = spec_render_patterns(specifiers);
    let cascaded = staged.spec_cascaded(graph);
    lemma_cascade_keeps(staged, graph);
    crate::laws::cascade::lemma_cascading_carries(staged, graph);
    let chosen = cascaded.spec_set_render_edges(graph, patterns, entry_point);
    law_one_render_edge_chosen(cascaded, graph, patterns, entry_point);
    lemma_seal_grows(
        Sealed::<TV, EV> { updates: Seq::empty(), errors: chosen.errors },
        graph,
        chosen.update_nodes,
    );
    assert(chosen.errors.len() == 0);
    assert(sealed.new_nodes == chosen.new_nodes);
    assert(root_of(cascaded, entry_point) == root_of(staged, entry_point));
}

} // verus!
