//! What finalizing does to the nodes that are marked for deletion.

use vstd::prelude::*;

use crate::blueprint::build_blueprint::{AllowedRenderEdgeSpecifier, BuildBlueprintView};
use crate::blueprint::delete_node::DeleteNodeView;
use crate::blueprint::finalize::{spec_seal_each, spec_snapshot_each, Sealed};
use crate::blueprint::finalized_blueprint::FinalizedBlueprintView;
use crate::blueprint::new_node::NewNodeView;
use crate::blueprint::render::{spec_first_new, spec_render_patterns, spec_settled, RenderSearchView};
use crate::collections::seq_facts::{lemma_lookup_put_other, lemma_lookup_put_same};
use crate::collections::seq_model::{lemma_union_members, lookup, put, union_seq};
use crate::common::{EdgeDescriptor, EdgeFinderView, GraphErrorView, Uid};
use crate::graph::reactive_node::read_reactive_node::NodeView;
use crate::laws::render::lemma_seal_grows;

verus! {

/// Whether `after` has every mark for deletion and at least as many errors
/// as `before`.
pub open spec fn carries<TV, EV>(
    after: BuildBlueprintView<TV, EV>,
    before: BuildBlueprintView<TV, EV>,
) -> bool {
    &&& after.errors.len() >= before.errors.len()
    &&& forall|id: Uid| before.delete_nodes.contains(id) ==> after.delete_nodes.contains(id)
}

proof fn lemma_catalog_carries<TV, EV, AV>(
    staged: BuildBlueprintView<TV, EV>,
    graph: Seq<(Uid, NodeView<TV, EV, AV>)>,
    edge: EdgeDescriptor<EV>,
    fuel: nat,
)
    ensures
        staged.spec_catalog(graph, edge, fuel).delete_nodes == staged.delete_nodes,
        staged.spec_catalog(graph, edge, fuel).errors == staged.errors,
    decreases fuel, 0nat,
{
    if fuel != 0 && edge.render_info == Some(crate::common::EdgeDir::Recv) {
        match lookup(graph, edge.host) {
            None => {},
            Some(node) => {
                if !crate::collections::seq_model::has_key(staged.displaced_nodes, node.id) {
                    let remaining = staged.spec_remaining_edges(node, edge);
                    let next = BuildBlueprintView {
                        displaced_nodes: put(
                            staged.displaced_nodes,
                            node.id,
                            NewNodeView {
                                add_edges: remaining,
                                ..NewNodeView::blank(node.id, staged.default_data)
                            },
                        ),
                        ..staged
                    };
                    lemma_catalog_all_carries(next, graph, remaining, (fuel - 1) as nat);
                }
            },
        }
    }
}

proof fn lemma_catalog_all_carries<TV, EV, AV>(
    staged: BuildBlueprintView<TV, EV>,
    graph: Seq<(Uid, NodeView<TV, EV, AV>)>,
    edges: Seq<EdgeDescriptor<EV>>,
    fuel: nat,
)
    ensures
        staged.spec_catalog_all(graph, edges, fuel).delete_nodes == staged.delete_nodes,
        staged.spec_catalog_all(graph, edges, fuel).errors == staged.errors,
    decreases fuel, edges.len() + 1,
{
    if edges.len() > 0 {
        lemma_catalog_carries(staged, graph, edges[0].spec_invert(), fuel);
        lemma_catalog_all_carries(
            staged.spec_catalog(graph, edges[0].spec_invert(), fuel),
            graph,
            edges.skip(1),
            fuel,
        );
    }
}

/// Resolving aliases changes no mark for deletion and loses no error.
pub proof fn lemma_resolve_carries<TV, EV>(
    staged: BuildBlueprintView<TV, EV>,
    temps: Seq<(EdgeDescriptor<EV>, bool)>,
)
    ensures
        staged.spec_resolve_temp_edges(temps).delete_nodes == staged.delete_nodes,
        staged.spec_resolve_temp_edges(temps).errors.len() >= staged.errors.len(),
    decreases temps.len(),
{
    if temps.len() > 0 {
        lemma_resolve_carries(staged.spec_resolve_temp_edge(temps[0]), temps.skip(1));
    }
}

proof fn lemma_close_entries_carries<TV, EV>(
    staged: BuildBlueprintView<TV, EV>,
    id: Uid,
    entries: Seq<EdgeDescriptor<EV>>,
)
    ensures
        staged.spec_close_entries(id, entries).delete_nodes == staged.delete_nodes,
        staged.spec_close_entries(id, entries).errors == staged.errors,
    decreases entries.len(),
{
    if entries.len() > 0 {
        lemma_close_entries_carries(staged.spec_close_entry(id, entries[0]), id, entries.skip(1));
    }
}

proof fn lemma_sever_list_carries<TV, EV, AV>(
    staged: BuildBlueprintView<TV, EV>,
    graph: Seq<(Uid, NodeView<TV, EV, AV>)>,
    edges: Seq<EdgeDescriptor<EV>>,
    fuel: nat,
)
    ensures
        staged.spec_sever_list(graph, edges, fuel).delete_nodes == staged.delete_nodes,
        staged.spec_sever_list(graph, edges, fuel).errors == staged.errors,
    decreases edges.len(),
{
    if edges.len() > 0 {
        lemma_catalog_carries(
            staged.spec_remove_edge(edges[0].spec_invert()).spec_forget(
                edges[0].spec_invert().spec_with_render(None),
            ),
            graph,
            edges[0].spec_invert(),
            fuel,
        );
        lemma_sever_list_carries(staged.spec_sever(graph, edges[0], fuel), graph, edges.skip(1), fuel);
    }
}

/// The ways in that are not held back are those from nodes that are not
/// displaced.
pub proof fn lemma_staying_members<TV, EV>(
    entries: Seq<EdgeDescriptor<EV>>,
    displaced: Seq<(Uid, NewNodeView<TV, EV>)>,
    e: EdgeDescriptor<EV>,
)
    ensures
        crate::blueprint::cascade::entries_from_staying(entries, displaced).contains(e)
            <==> entries.contains(e) && !crate::collections::seq_model::has_key(displaced, e.host),
    decreases entries.len(),
{
    if entries.len() > 0 {
        lemma_staying_members(entries.drop_last(), displaced, e);
        let kept = crate::blueprint::cascade::entries_from_staying(entries.drop_last(), displaced);
        crate::collections::seq_model::lemma_insert_members(kept, entries.last(), e);
        assert(entries[entries.len() - 1] == entries.last());
        if entries.contains(e) {
            let j = choose|j: int| 0 <= j < entries.len() && entries[j] == e;
            if j < entries.len() - 1 {
                assert(entries.drop_last()[j] == e);
            }
        }
        if entries.drop_last().contains(e) {
            let j = choose|j: int| 0 <= j < entries.len() - 1 && entries.drop_last()[j] == e;
            assert(entries[j] == e);
        }
    }
}

/// Releasing a node from render edges touches nothing but the changes to
/// nodes of the graph.
pub proof fn lemma_release_each_frame<TV, EV>(
    staged: BuildBlueprintView<TV, EV>,
    olds: Seq<EdgeDescriptor<EV>>,
    keep: EdgeDescriptor<EV>,
)
    ensures
        staged.spec_release_each(olds, keep) == (BuildBlueprintView {
            update_nodes: staged.spec_release_each(olds, keep).update_nodes,
            ..staged
        }),
    decreases olds.len(),
{
    if olds.len() > 0 {
        let first = if olds[0] == keep || staged.spec_takes(olds[0]) {
            staged
        } else {
            staged.spec_unmark(olds[0])
        };
        lemma_release_each_frame(first, olds.skip(1), keep);
    }
}

/// Releasing the target of a connection from render edges touches nothing
/// but the changes to nodes of the graph.
pub proof fn lemma_release_frame<TV, EV, AV>(
    staged: BuildBlueprintView<TV, EV>,
    graph: Seq<(Uid, NodeView<TV, EV, AV>)>,
    connection: EdgeDescriptor<EV>,
)
    ensures
        staged.spec_release(graph, connection) == (BuildBlueprintView {
            update_nodes: staged.spec_release(graph, connection).update_nodes,
            ..staged
        }),
{
    match lookup(graph, connection.target) {
        None => {},
        Some(node) => match node.spec_search_for_edge(crate::blueprint::render::rendered_through()) {
            None => {},
            Some(olds) => {
                lemma_release_each_frame(
                    staged,
                    olds,
                    connection.spec_invert().spec_with_render(Some(crate::common::EdgeDir::Recv)),
                );
            },
        },
    }
}

proof fn lemma_sever_map_carries<TV, EV, AV>(
    staged: BuildBlueprintView<TV, EV>,
    graph: Seq<(Uid, NodeView<TV, EV, AV>)>,
    map: Seq<(EV, Seq<EdgeDescriptor<EV>>)>,
    fuel: nat,
)
    ensures
        staged.spec_sever_map(graph, map, fuel).delete_nodes == staged.delete_nodes,
        staged.spec_sever_map(graph, map, fuel).errors == staged.errors,
    decreases map.len(),
{
    if map.len() > 0 {
        lemma_sever_list_carries(staged, graph, map[0].1, fuel);
        lemma_sever_map_carries(
            staged.spec_sever_list(graph, map[0].1, fuel),
            graph,
            map.skip(1),
            fuel,
        );
    }
}

proof fn lemma_delete_one_carries<TV, EV, AV>(
    staged: BuildBlueprintView<TV, EV>,
    graph: Seq<(Uid, NodeView<TV, EV, AV>)>,
    id: Uid,
    fuel: nat,
)
    ensures
        staged.spec_delete_one(graph, id, fuel).delete_nodes == staged.delete_nodes,
        staged.spec_delete_one(graph, id, fuel).errors.len() >= staged.errors.len(),
        lookup(graph, id) is None ==> staged.spec_delete_one(graph, id, fuel).errors.len()
            > staged.errors.len(),
{
    let entries = crate::collections::seq_model::keep(
        staged.entry_edges,
        |e: EdgeDescriptor<EV>| e.host == id,
    );
    lemma_close_entries_carries(staged, id, entries);
    let closed = staged.spec_close_entries(id, entries);
    let dropped = BuildBlueprintView {
        update_nodes: crate::collections::seq_model::drop_key(closed.update_nodes, id),
        ..closed
    };
    match lookup(graph, id) {
        Some(node) => {
            lemma_sever_map_carries(dropped, graph, node.incoming_edges, fuel);
            lemma_sever_map_carries(
                dropped.spec_sever_map(graph, node.incoming_edges, fuel),
                graph,
                node.outgoing_edges,
                fuel,
            );
        },
        None => {},
    }
}

/// Carrying deletions through what is staged changes no mark for deletion
/// and loses no error; a node that the graph does not hold is an error.
pub proof fn lemma_delete_each_carries<TV, EV, AV>(
    staged: BuildBlueprintView<TV, EV>,
    graph: Seq<(Uid, NodeView<TV, EV, AV>)>,
    ids: Seq<Uid>,
    fuel: nat,
)
    ensures
        staged.spec_delete_each(graph, ids, fuel).delete_nodes == staged.delete_nodes,
        staged.spec_delete_each(graph, ids, fuel).errors.len() >= staged.errors.len(),
        (exists|id: Uid| ids.contains(id) && lookup(graph, id) is None) ==> staged.spec_delete_each(
            graph,
            ids,
            fuel,
        ).errors.len() > staged.errors.len(),
    decreases ids.len(),
{
    if ids.len() > 0 {
        lemma_delete_one_carries(staged, graph, ids[0], fuel);
        lemma_delete_each_carries(staged.spec_delete_one(graph, ids[0], fuel), graph, ids.skip(1), fuel);
        if exists|id: Uid| ids.contains(id) && lookup(graph, id) is None {
            let id = choose|id: Uid| ids.contains(id) && lookup(graph, id) is None;
            let j = choose|j: int| 0 <= j < ids.len() && ids[j] == id;
            if j > 0 {
                assert(ids.skip(1)[j - 1] == id);
                assert(ids.skip(1).contains(id));
            }
        }
    } else {
        assert forall|id: Uid| !ids.contains(id) by {}
    }
}

proof fn lemma_cut_each_carries<TV, EV, AV>(
    staged: BuildBlueprintView<TV, EV>,
    graph: Seq<(Uid, NodeView<TV, EV, AV>)>,
    edges: Seq<EdgeDescriptor<EV>>,
    fuel: nat,
)
    ensures
        staged.spec_cut_each(graph, edges, fuel).delete_nodes == staged.delete_nodes,
        staged.spec_cut_each(graph, edges, fuel).errors == staged.errors,
    decreases edges.len(),
{
    if edges.len() > 0 {
        let edge = edges[0];
        lemma_catalog_carries(staged, graph, edge.spec_invert(), fuel);
        let a = staged.spec_catalog(graph, edge.spec_invert(), fuel).spec_remove_edge(
            edge.spec_invert(),
        );
        lemma_catalog_carries(a, graph, edge, fuel);
        lemma_cut_each_carries(staged.spec_cut(graph, edge, fuel), graph, edges.skip(1), fuel);
    }
}

proof fn lemma_removals_carry<TV, EV, AV>(
    staged: BuildBlueprintView<TV, EV>,
    graph: Seq<(Uid, NodeView<TV, EV, AV>)>,
    removals: Seq<(Uid, EdgeFinderView<EV>)>,
    fuel: nat,
)
    ensures
        staged.spec_resolve_removals(graph, removals, fuel).delete_nodes == staged.delete_nodes,
        staged.spec_resolve_removals(graph, removals, fuel).errors.len() >= staged.errors.len(),
    decreases removals.len(),
{
    if removals.len() > 0 {
        match lookup(graph, removals[0].0) {
            None => {},
            Some(node) => match node.spec_search_for_edge(removals[0].1) {
                None => {},
                Some(found) => {
                    lemma_cut_each_carries(staged, graph, found, fuel);
                },
            },
        }
        lemma_removals_carry(
            staged.spec_resolve_removal(graph, removals[0], fuel),
            graph,
            removals.skip(1),
            fuel,
        );
    }
}

proof fn lemma_note_entries_carries<TV, EV, AV>(
    staged: BuildBlueprintView<TV, EV>,
    graph: Seq<(Uid, NodeView<TV, EV, AV>)>,
    id: Uid,
    edges: Seq<EdgeDescriptor<EV>>,
)
    ensures
        staged.spec_note_entries(graph, id, edges).delete_nodes == staged.delete_nodes,
        staged.spec_note_entries(graph, id, edges).errors == staged.errors,
    decreases edges.len(),
{
    if edges.len() > 0 {
        let first = if staged.spec_offers_entry(graph, id, edges[0]) {
            BuildBlueprintView {
                displaced_entry_edges: crate::collections::seq_model::insert_unique(
                    staged.displaced_entry_edges,
                    edges[0].spec_invert(),
                ),
                ..staged
            }
        } else {
            staged
        };
        lemma_note_entries_carries(first, graph, id, edges.skip(1));
    }
}

proof fn lemma_note_all_carries<TV, EV, AV>(
    staged: BuildBlueprintView<TV, EV>,
    graph: Seq<(Uid, NodeView<TV, EV, AV>)>,
    nodes: Seq<(Uid, NewNodeView<TV, EV>)>,
)
    ensures
        staged.spec_note_all_entries(graph, nodes).delete_nodes == staged.delete_nodes,
        staged.spec_note_all_entries(graph, nodes).errors == staged.errors,
    decreases nodes.len(),
{
    if nodes.len() > 0 {
        lemma_note_entries_carries(staged, graph, nodes[0].0, nodes[0].1.add_edges);
        lemma_note_all_carries(
            staged.spec_note_entries(graph, nodes[0].0, nodes[0].1.add_edges),
            graph,
            nodes.skip(1),
        );
    }
}

/// The rounds of the search lose no mark for deletion and no error.
pub proof fn lemma_rounds_carry<TV, EV, AV>(
    staged: BuildBlueprintView<TV, EV>,
    search: RenderSearchView<TV, EV>,
    graph: Seq<(Uid, NodeView<TV, EV, AV>)>,
    patterns: Seq<EdgeFinderView<EV>>,
    fuel: nat,
)
    ensures
        carries(staged.spec_render_rounds(search, graph, patterns, fuel), staged),
    decreases fuel,
{
    if search.remaining.len() == 0 {
    } else if fuel == 0 {
    } else {
        let offered = search.spec_expanded(patterns);
        if offered.candidates.len() == 0 {
            match spec_first_new(staged.new_nodes, offered.remaining) {
                Some(id) => {},
                None => {
                    let marked = BuildBlueprintView {
                        delete_nodes: union_seq(staged.delete_nodes, offered.remaining),
                        ..staged
                    };
                    lemma_union_members(staged.delete_nodes, offered.remaining);
                    lemma_delete_each_carries(marked, graph, marked.delete_nodes, graph.len());
                },
            }
        } else {
            let taken = offered.candidates[crate::blueprint::render::spec_best(offered.candidates)];
            let left = RenderSearchView {
                candidates: crate::collections::seq_model::without(offered.candidates, taken),
                ..offered
            };
            let settled = staged.spec_settle(left, graph, taken.1);
            lemma_release_frame(staged.spec_assign(graph, taken.1), graph, taken.1);
            assert(settled.delete_nodes == staged.delete_nodes && settled.errors == staged.errors);
            lemma_rounds_carry(
                settled,
                spec_settled(left, taken.1),
                graph,
                patterns,
                (fuel - 1) as nat,
            );
        }
    }
}

/// Carrying deletions and removals through changes no mark for deletion
/// and loses no error.
pub proof fn lemma_cascading_carries<TV, EV, AV>(
    staged: BuildBlueprintView<TV, EV>,
    graph: Seq<(Uid, NodeView<TV, EV, AV>)>,
)
    ensures
        staged.spec_cascaded(graph).delete_nodes == staged.delete_nodes,
        staged.spec_cascaded(graph).errors.len() >= staged.errors.len(),
{
    lemma_resolve_carries(staged, staged.temp_edges);
    let resolved = staged.spec_update_temp_ids();
    lemma_delete_each_carries(resolved, graph, resolved.delete_nodes, graph.len());
    let deleted = resolved.spec_finalize_delete_nodes(graph);
    lemma_removals_carry(deleted, graph, deleted.remove_edge_finders, graph.len());
    let removed = deleted.spec_finalize_removed_edges(graph);
    lemma_note_all_carries(removed, graph, removed.displaced_nodes);
}

/// Settling what is staged against the graph loses no mark for deletion
/// and no error; and where a node that is marked at the outset is not in
/// the graph, there is an error.
pub proof fn lemma_settling_carries<TV, EV, AV>(
    staged: BuildBlueprintView<TV, EV>,
    graph: Seq<(Uid, NodeView<TV, EV, AV>)>,
    specifiers: Option<Seq<AllowedRenderEdgeSpecifier<EV>>>,
    entry_point: Option<Uid>,
)
    ensures
        carries(staged.spec_settled_against(graph, specifiers, entry_point), staged),
        (exists|id: Uid| staged.delete_nodes.contains(id) && lookup(graph, id) is None)
            ==> staged.spec_settled_against(graph, specifiers, entry_point).errors.len() > 0,
{
    let patterns = spec_render_patterns(specifiers);
    lemma_resolve_carries(staged, staged.temp_edges);
    let resolved = staged.spec_update_temp_ids();
    lemma_delete_each_carries(resolved, graph, resolved.delete_nodes, graph.len());
    let deleted = resolved.spec_finalize_delete_nodes(graph);
    lemma_removals_carry(deleted, graph, deleted.remove_edge_finders, graph.len());
    let removed = deleted.spec_finalize_removed_edges(graph);
    lemma_note_all_carries(removed, graph, removed.displaced_nodes);
    let noted = removed.spec_find_potential_entries(graph).spec_hold_back_entries();
    let begin = RenderSearchView::begin(
        crate::graph::reactive_node::build_reactive_node::spec_extend(
            noted.new_nodes,
            noted.displaced_nodes,
        ),
    );
    match entry_point {
        Some(temp) => {
            if noted.temp_id_map.dom().contains(temp) {
                let root = noted.temp_id_map[temp];
                match lookup(begin.uncertain, root) {
                    None => {},
                    Some(node) => {
                        if node.spec_render_edge() is None {
                            lemma_rounds_carry(
                                noted,
                                begin.spec_connect(root, node),
                                graph,
                                patterns,
                                usize::MAX as nat,
                            );
                        }
                    },
                }
            }
        },
        None => {
            lemma_rounds_carry(
                noted,
                begin.spec_offer_all(patterns, noted.entry_edges).spec_offer_all(
                    patterns,
                    noted.displaced_entry_edges,
                ),
                graph,
                patterns,
                usize::MAX as nat,
            );
        },
    }
    let chosen = noted.spec_set_render_edges(graph, patterns, entry_point);
    assert(carries(chosen, noted));
    if exists|id: Uid| staged.delete_nodes.contains(id) && lookup(graph, id) is None {
        assert(deleted.errors.len() > 0);
    }
}

/// The records of deletions hold, for each of `ids` that the graph holds,
/// all that the graph holds of it, and nothing for any other node.
pub proof fn lemma_snapshots<TV, EV, AV>(
    sealed: Seq<(Uid, DeleteNodeView<TV, EV>)>,
    graph: Seq<(Uid, NodeView<TV, EV, AV>)>,
    ids: Seq<Uid>,
    id: Uid,
)
    ensures
        lookup(spec_snapshot_each(sealed, graph, ids), id) == (if ids.contains(id) && lookup(
            graph,
            id,
        ) is Some {
            Some(lookup(graph, id)->0.spec_snapshot())
        } else {
            lookup(sealed, id)
        }),
    decreases ids.len(),
{
    if ids.len() > 0 {
        let next = match lookup(graph, ids[0]) {
            Some(node) => put(sealed, ids[0], node.spec_snapshot()),
            None => sealed,
        };
        lemma_snapshots(next, graph, ids.skip(1), id);
        assert(ids[0] == ids[0]);
        if ids.skip(1).contains(id) {
            let j = choose|j: int| 0 <= j < ids.skip(1).len() && ids.skip(1)[j] == id;
            assert(ids[j + 1] == id);
        }
        if ids.contains(id) {
            let j = choose|j: int| 0 <= j < ids.len() && ids[j] == id;
            if j > 0 {
                assert(ids.skip(1)[j - 1] == id);
            }
        }
        match lookup(graph, ids[0]) {
            Some(node) => {
                if id == ids[0] {
                    lemma_lookup_put_same(sealed, ids[0], node.spec_snapshot());
                } else {
                    lemma_lookup_put_other(sealed, ids[0], node.spec_snapshot(), id);
                }
            },
            None => {},
        }
    } else {
        assert(!ids.contains(id));
    }
}

/// Every sealed change that replaces a payload is to a node of the graph
/// and names the payload that the graph holds there.
pub proof fn lemma_sealed_payloads<TV, EV, AV>(
    sealed: Sealed<TV, EV>,
    graph: Seq<(Uid, NodeView<TV, EV, AV>)>,
    updates: Seq<(Uid, crate::blueprint::update_node::UpdateNodeView<TV, EV>)>,
    id: Uid,
)
    requires
        lookup(sealed.updates, id) matches Some(u) ==> (u.replacement_data matches Some(d)
            ==> lookup(graph, id) is Some && d.prev_data == lookup(graph, id)->0.data),
    ensures
        lookup(spec_seal_each(sealed, graph, updates).updates, id) matches Some(u) ==> (
        u.replacement_data matches Some(d) ==> lookup(graph, id) is Some && d.prev_data == lookup(
            graph,
            id,
        )->0.data),
    decreases updates.len(),
{
    if updates.len() > 0 {
        let (key, update) = updates[0];
        let record = crate::blueprint::finalize::spec_seal(graph, key, update);
        let next = Sealed {
            updates: put(sealed.updates, key, record),
            errors: if update.replacement_data is Some && lookup(graph, key) is None {
                sealed.errors.push(crate::blueprint::finalize::update_not_found(key))
            } else {
                sealed.errors
            },
        };
        if id == key {
            lemma_lookup_put_same(sealed.updates, key, record);
        } else {
            lemma_lookup_put_other(sealed.updates, key, record, id);
        }
        lemma_sealed_payloads(next, graph, updates.skip(1), id);
    }
}

/// Where a transaction is finalized with success, every change of the
/// sealed transaction that replaces a payload is to a node of the graph
/// and names the payload that the graph holds there.
pub proof fn law_sealed_changes_name_what_they_replace<TV, EV, AV>(
    staged: BuildBlueprintView<TV, EV>,
    graph: Seq<(Uid, NodeView<TV, EV, AV>)>,
    specifiers: Option<Seq<AllowedRenderEdgeSpecifier<EV>>>,
    entry_point: Option<Uid>,
    sealed: FinalizedBlueprintView<TV, EV>,
)
    requires
        staged.spec_finalize(graph, specifiers, entry_point) == Ok::<
            FinalizedBlueprintView<TV, EV>,
            Seq<GraphErrorView>,
        >(sealed),
    ensures
        forall|id: Uid| #[trigger]
            lookup(sealed.update_nodes, id) is Some ==> (lookup(
                sealed.update_nodes,
                id,
            )->0.replacement_data matches Some(d) ==> lookup(graph, id) is Some && d.prev_data
                == lookup(graph, id)->0.data),
{
    let settled = staged.spec_settled_against(graph, specifiers, entry_point);
    let begin = Sealed::<TV, EV> { updates: Seq::empty(), errors: settled.errors };
    assert forall|id: Uid| #[trigger] lookup(sealed.update_nodes, id) is Some implies (lookup(
        sealed.update_nodes,
        id,
    )->0.replacement_data matches Some(d) ==> lookup(graph, id) is Some && d.prev_data == lookup(
        graph,
        id,
    )->0.data) by {
        lemma_sealed_payloads(begin, graph, settled.update_nodes, id);
    }
}

/// Where a transaction is finalized with success, every node that was
/// marked for deletion at the outset is a node of the graph and is deleted
/// by the sealed transaction; and every node that the sealed transaction
/// deletes is a node of the graph, deleted with a record of all that the
/// graph holds of it.
pub proof fn law_marked_nodes_are_deleted<TV, EV, AV>(
    staged: BuildBlueprintView<TV, EV>,
    graph: Seq<(Uid, NodeView<TV, EV, AV>)>,
    specifiers: Option<Seq<AllowedRenderEdgeSpecifier<EV>>>,
    entry_point: Option<Uid>,
    sealed: FinalizedBlueprintView<TV, EV>,
)
    requires
        staged.spec_finalize(graph, specifiers, entry_point) == Ok::<
            FinalizedBlueprintView<TV, EV>,
            Seq<GraphErrorView>,
        >(sealed),
    ensures
        forall|id: Uid|
            staged.delete_nodes.contains(id) ==> lookup(graph, id) is Some && #[trigger] lookup(
                sealed.delete_nodes,
                id,
            ) is Some,
        forall|id: Uid| #[trigger]
            lookup(sealed.delete_nodes, id) is Some ==> lookup(graph, id) is Some && lookup(
                sealed.delete_nodes,
                id,
            ) == Some(lookup(graph, id)->0.spec_snapshot()),
{
    let settled = staged.spec_settled_against(graph, specifiers, entry_point);
    lemma_settling_carries(staged, graph, specifiers, entry_point);
    lemma_seal_grows(
        Sealed { updates: Seq::empty(), errors: settled.errors },
        graph,
        settled.update_nodes,
    );
    assert(settled.errors.len() == 0);
    assert(sealed.delete_nodes == spec_snapshot_each(Seq::empty(), graph, settled.delete_nodes));
    assert forall|id: Uid|
        staged.delete_nodes.contains(id) implies lookup(graph, id) is Some && #[trigger] lookup(
        sealed.delete_nodes,
        id,
    ) is Some by {
        lemma_snapshots(Seq::empty(), graph, settled.delete_nodes, id);
        assert(settled.delete_nodes.contains(id));
    }
    assert forall|id: Uid| #[trigger] lookup(sealed.delete_nodes, id) is Some implies lookup(
        graph,
        id,
    ) is Some && lookup(sealed.delete_nodes, id) == Some(
        lookup(graph, id)->0.spec_snapshot(),
    ) by {
        lemma_snapshots(Seq::empty(), graph, settled.delete_nodes, id);
    }
}

} // verus!
