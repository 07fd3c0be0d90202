//! Staged edges in balance: how a transaction that also deletes nodes and
//! removes edges comes to treat both sides of every edge alike.

use vstd::prelude::*;

use crate::blueprint::build_blueprint::{AllowedRenderEdgeSpecifier, BuildBlueprintView};
use crate::blueprint::finalize::{spec_snapshot_each, Sealed};
use crate::blueprint::finalized_blueprint::FinalizedBlueprintView;
use crate::blueprint::finalized_update_node::FinalizedUpdateNodeView;
use crate::blueprint::delete_node::DeleteNodeView;
use crate::blueprint::cascade::all_edges_to;
use crate::blueprint::new_node::{spec_find_edges, spec_retag, NewNodeView};
use crate::blueprint::render::{
    rendered_through, rendering_pattern, spec_first_new, spec_settled, RenderSearchView,
};
use crate::blueprint::update_node::{items_of, UpdateNodeView};
use crate::collections::seq_facts::{
    lemma_drop_keeps_unique, lemma_keys_are_found, lemma_lookup_drop_other, lemma_lookup_drop_same,
    lemma_lookup_put_other, lemma_lookup_put_same, lemma_put_keeps_unique, lemma_without_members,
    unique_keys,
};
use crate::collections::seq_model::{
    drop_key, has_key, insert_unique, keep, keys_of, lemma_insert_members, lemma_union_members,
    lookup, put, union_seq, without, without_each,
};
use crate::common::edge_descriptor::lemma_invert_involution;
use crate::common::{
    spec_invert_render, EdgeDescriptor, EdgeDir, EdgeFinderView, GraphErrorView, Uid,
};
use crate::graph::reactive_node::build_reactive_node::spec_extend;
use crate::graph::reactive_node::last_action::ActionData;
use crate::graph::reactive_node::read_reactive_node::NodeView;
use crate::graph::view_graph::GraphView;
use crate::laws::edges::lemma_listed_is_held;
use crate::laws::graphs::{lemma_add_nodes, lemma_update_nodes, new_ids, update_ids};
use crate::laws::pairing::{
    aliases_staged, in_pairs, lemma_held_leads_there, lemma_lookup_entry,
    lemma_resolve_pairs, lemma_retag_members, lemma_search_map_sound, lemma_sealed_in_order,
    listed, mirrored_staging, new_in_place, paired, records_in_place, sealed_entries,
    staged_adds, update_in_place,
};
use crate::laws::symmetry::law_apply_keeps_symmetry;

verus! {

/// Whether the removal of `edge` from node `id` is staged.
pub open spec fn takes<TV, EV>(
    staged: BuildBlueprintView<TV, EV>,
    id: Uid,
    edge: EdgeDescriptor<EV>,
) -> bool {
    lookup(staged.update_nodes, id) is Some && items_of(
        lookup(staged.update_nodes, id)->0.remove_edges,
    ).contains(edge)
}

/// Whether node `id` is marked for deletion.
pub open spec fn marked<TV, EV>(staged: BuildBlueprintView<TV, EV>, id: Uid) -> bool {
    staged.delete_nodes.contains(id)
}

/// Whether the graph holds `edge` on node `id`.
pub open spec fn graph_holds<TV, EV, AV>(
    graph: GraphView<TV, EV, AV>,
    id: Uid,
    edge: EdgeDescriptor<EV>,
) -> bool {
    graph.node(id) is Some && graph.node(id)->0.holds(edge)
}

/// Whether a change is keyed: under the identifier of the node that it
/// changes, which is no new node, and with each added edge once.
pub open spec fn change_keyed<TV, EV>(
    staged: BuildBlueprintView<TV, EV>,
    id: Uid,
    record: UpdateNodeView<TV, EV>,
) -> bool {
    record.id == id && lookup(staged.new_nodes, id) is None && items_of(
        record.add_edges,
    ).no_duplicates()
}

/// Whether every staged record is keyed: each new node in its place, and
/// each change under the identifier of a node that is not new.
#[verifier::opaque]
pub open spec fn records_keyed<TV, EV, AV>(
    staged: BuildBlueprintView<TV, EV>,
    graph: GraphView<TV, EV, AV>,
) -> bool {
    &&& unique_keys(staged.new_nodes)
    &&& unique_keys(staged.update_nodes)
    &&& forall|id: Uid| #[trigger]
        lookup(staged.new_nodes, id) is Some ==> new_in_place(
            graph,
            id,
            lookup(staged.new_nodes, id)->0,
        )
    &&& forall|id: Uid| #[trigger]
        lookup(staged.update_nodes, id) is Some ==> change_keyed(
            staged,
            id,
            lookup(staged.update_nodes, id)->0,
        )
}

/// Whether every staged edge is staged on its host, and its mirror on the
/// node at its other end unless that node is marked for deletion.
#[verifier::opaque]
pub open spec fn additions_mirrored<TV, EV>(staged: BuildBlueprintView<TV, EV>) -> bool {
    forall|id: Uid, e: EdgeDescriptor<EV>| #[trigger]
        staged_adds(staged, id, e) ==> e.host == id && (staged_adds(
            staged,
            e.target,
            e.spec_invert(),
        ) || marked(staged, e.target))
}

/// Whether the removal of an edge of the graph from a node that is not
/// marked for deletion goes with the removal of its mirror, unless the node
/// at its other end is marked for deletion.
#[verifier::opaque]
pub open spec fn removals_mirrored<TV, EV, AV>(
    staged: BuildBlueprintView<TV, EV>,
    graph: GraphView<TV, EV, AV>,
) -> bool {
    forall|id: Uid, e: EdgeDescriptor<EV>|
        #[trigger] takes(staged, id, e) && graph_holds(graph, id, e) && !marked(staged, id)
            ==> marked(staged, e.target) || takes(staged, e.target, e.spec_invert())
}

/// Whether what is staged is in balance on `graph`.
pub open spec fn balanced<TV, EV, AV>(
    staged: BuildBlueprintView<TV, EV>,
    graph: GraphView<TV, EV, AV>,
) -> bool {
    &&& records_keyed(staged, graph)
    &&& additions_mirrored(staged)
    &&& removals_mirrored(staged, graph)
}

/// Whether `after` has every mark for deletion of `before`.
pub open spec fn keeps_marks<TV, EV>(
    after: BuildBlueprintView<TV, EV>,
    before: BuildBlueprintView<TV, EV>,
) -> bool {
    forall|id: Uid| marked(before, id) ==> #[trigger] marked(after, id)
}

/// Whether `after` stages every removal of `before` but those from nodes
/// that are marked for deletion.
pub open spec fn keeps_removals<TV, EV>(
    after: BuildBlueprintView<TV, EV>,
    before: BuildBlueprintView<TV, EV>,
) -> bool {
    forall|id: Uid, e: EdgeDescriptor<EV>| #[trigger]
        takes(before, id, e) ==> takes(after, id, e) || marked(after, id)
}

/// Where additions are mirrored and some are dropped, each of them from a
/// marked node or together with its mirror, additions are still mirrored.
pub proof fn lemma_fewer_additions<TV, EV>(
    before: BuildBlueprintView<TV, EV>,
    after: BuildBlueprintView<TV, EV>,
)
    requires
        additions_mirrored(before),
        keeps_marks(after, before),
        forall|id: Uid, e: EdgeDescriptor<EV>| #[trigger]
            staged_adds(after, id, e) ==> staged_adds(before, id, e),
        forall|id: Uid, e: EdgeDescriptor<EV>|
            #[trigger] staged_adds(before, id, e) && !staged_adds(after, id, e) ==> marked(
                after,
                id,
            ) || !staged_adds(after, e.target, e.spec_invert()),
    ensures
        additions_mirrored(after),
{
    reveal(additions_mirrored);
    assert forall|id: Uid, e: EdgeDescriptor<EV>| #[trigger]
        staged_adds(after, id, e) implies e.host == id && (staged_adds(
        after,
        e.target,
        e.spec_invert(),
    ) || marked(after, e.target)) by {
        assert(staged_adds(before, id, e));
        lemma_invert_involution(e);
        let mirror = e.spec_invert();
        if marked(before, e.target) {
            assert(marked(after, e.target));
        } else {
            assert(staged_adds(before, e.target, mirror));
            if !staged_adds(after, e.target, mirror) {
                assert(mirror.target == id);
                assert(mirror.spec_invert() == e);
                assert(marked(after, e.target) || !staged_adds(
                    after,
                    mirror.target,
                    mirror.spec_invert(),
                ));
            }
        }
    }
}

/// Where removals are mirrored and more are staged, each new one of an
/// edge of the graph together with its mirror unless a node at either end
/// is marked, removals are still mirrored.
pub proof fn lemma_more_removals<TV, EV, AV>(
    before: BuildBlueprintView<TV, EV>,
    after: BuildBlueprintView<TV, EV>,
    graph: GraphView<TV, EV, AV>,
)
    requires
        removals_mirrored(before, graph),
        keeps_marks(after, before),
        keeps_removals(after, before),
        forall|id: Uid, e: EdgeDescriptor<EV>|
            #[trigger] takes(after, id, e) && !takes(before, id, e) && graph_holds(graph, id, e)
                && !marked(after, id) ==> marked(after, e.target) || takes(
                after,
                e.target,
                e.spec_invert(),
            ),
    ensures
        removals_mirrored(after, graph),
{
    reveal(removals_mirrored);
    assert forall|id: Uid, e: EdgeDescriptor<EV>|
        #[trigger] takes(after, id, e) && graph_holds(graph, id, e) && !marked(
            after,
            id,
        ) implies marked(after, e.target) || takes(after, e.target, e.spec_invert()) by {
        if takes(before, id, e) {
            assert(!marked(before, id));
            if marked(before, e.target) {
                assert(marked(after, e.target));
            } else {
                assert(takes(before, e.target, e.spec_invert()));
            }
        }
    }
}

/// Staging the removal of an edge whose host is no new node keeps every
/// record keyed; the edge is no longer staged for addition to its host, and
/// its removal from its host is staged.
pub proof fn lemma_remove_edge_effects<TV, EV, AV>(
    staged: BuildBlueprintView<TV, EV>,
    graph: GraphView<TV, EV, AV>,
    edge: EdgeDescriptor<EV>,
)
    requires
        records_keyed(staged, graph),
        lookup(staged.new_nodes, edge.host) is None,
    ensures
        records_keyed(staged.spec_remove_edge(edge), graph),
        staged.spec_remove_edge(edge).new_nodes == staged.new_nodes,
        staged.spec_remove_edge(edge).delete_nodes == staged.delete_nodes,
        staged.spec_remove_edge(edge).errors == staged.errors,
        forall|id: Uid, e: EdgeDescriptor<EV>| #[trigger]
            staged_adds(staged.spec_remove_edge(edge), id, e) <==> staged_adds(staged, id, e) && !(
            id == edge.host && e == edge),
        forall|id: Uid, e: EdgeDescriptor<EV>| #[trigger]
            takes(staged.spec_remove_edge(edge), id, e) <==> takes(staged, id, e) || (id
                == edge.host && e == edge),
{
    reveal(records_keyed);
    let after = staged.spec_remove_edge(edge);
    let host = edge.host;
    let change = staged.update_node_or_blank(host);
    let cut = UpdateNodeView {
        add_edges: match change.add_edges {
            Some(a) => Some(without(a, edge)),
            None => None,
        },
        remove_edges: Some(insert_unique(items_of(change.remove_edges), edge)),
        ..change
    };
    assert(after.update_nodes == put(staged.update_nodes, host, cut));
    if lookup(staged.update_nodes, host) is Some {
        assert(change_keyed(staged, host, change));
    }
    lemma_put_keeps_unique(staged.update_nodes, host, cut);
    lemma_lookup_put_same(staged.update_nodes, host, cut);
    assert forall|id: Uid| id != host implies lookup(after.update_nodes, id) == lookup(
        staged.update_nodes,
        id,
    ) by {
        lemma_lookup_put_other(staged.update_nodes, host, cut, id);
    }
    assert forall|e: EdgeDescriptor<EV>|
        (items_of(cut.add_edges).contains(e) <==> items_of(change.add_edges).contains(e) && e
            != edge) && (items_of(cut.remove_edges).contains(e) <==> items_of(
            change.remove_edges,
        ).contains(e) || e == edge) by {
        lemma_without_members(items_of(change.add_edges), edge, e);
        lemma_insert_members(items_of(change.remove_edges), edge, e);
    }
    assert(items_of(cut.add_edges).no_duplicates()) by {
        lemma_without_members(items_of(change.add_edges), edge, edge);
    }
    assert forall|id: Uid| #[trigger] lookup(after.update_nodes, id) is Some implies change_keyed(
        after,
        id,
        lookup(after.update_nodes, id)->0,
    ) by {
        if id != host {
            assert(lookup(after.update_nodes, id) == lookup(staged.update_nodes, id));
            assert(change_keyed(staged, id, lookup(staged.update_nodes, id)->0));
        }
    }
    assert forall|id: Uid, e: EdgeDescriptor<EV>| #[trigger]
        staged_adds(after, id, e) <==> staged_adds(staged, id, e) && !(id == host && e
            == edge) by {
        if id != host {
            assert(lookup(after.update_nodes, id) == lookup(staged.update_nodes, id));
        }
    }
    assert forall|id: Uid, e: EdgeDescriptor<EV>| #[trigger]
        takes(after, id, e) <==> takes(staged, id, e) || (id == host && e == edge) by {
        if id != host {
            assert(lookup(after.update_nodes, id) == lookup(staged.update_nodes, id));
        }
    }
}

/// Dropping an edge whose host is no new node from what is staged for
/// addition keeps every record keyed; the edge is no longer staged for
/// addition to its host, and nothing else changes.
pub proof fn lemma_forget_effects<TV, EV, AV>(
    staged: BuildBlueprintView<TV, EV>,
    graph: GraphView<TV, EV, AV>,
    edge: EdgeDescriptor<EV>,
)
    requires
        records_keyed(staged, graph),
        lookup(staged.new_nodes, edge.host) is None,
    ensures
        records_keyed(staged.spec_forget(edge), graph),
        staged.spec_forget(edge).new_nodes == staged.new_nodes,
        staged.spec_forget(edge).delete_nodes == staged.delete_nodes,
        staged.spec_forget(edge).errors == staged.errors,
        forall|id: Uid, e: EdgeDescriptor<EV>| #[trigger]
            staged_adds(staged.spec_forget(edge), id, e) <==> staged_adds(staged, id, e) && !(id
                == edge.host && e == edge),
        forall|id: Uid, e: EdgeDescriptor<EV>| #[trigger]
            takes(staged.spec_forget(edge), id, e) <==> takes(staged, id, e),
{
    reveal(records_keyed);
    let after = staged.spec_forget(edge);
    let host = edge.host;
    match lookup(staged.update_nodes, host) {
        None => {},
        Some(change) => {
            let trimmed = UpdateNodeView {
                add_edges: match change.add_edges {
                    Some(a) => Some(without(a, edge)),
                    None => None,
                },
                ..change
            };
            assert(change_keyed(staged, host, change));
            lemma_put_keeps_unique(staged.update_nodes, host, trimmed);
            lemma_lookup_put_same(staged.update_nodes, host, trimmed);
            assert forall|id: Uid| id != host implies lookup(after.update_nodes, id) == lookup(
                staged.update_nodes,
                id,
            ) by {
                lemma_lookup_put_other(staged.update_nodes, host, trimmed, id);
            }
            assert forall|e: EdgeDescriptor<EV>|
                items_of(trimmed.add_edges).contains(e) <==> items_of(change.add_edges).contains(e)
                    && e != edge by {
                lemma_without_members(items_of(change.add_edges), edge, e);
            }
            assert(items_of(trimmed.add_edges).no_duplicates()) by {
                lemma_without_members(items_of(change.add_edges), edge, edge);
            }
            assert forall|id: Uid| #[trigger]
                lookup(after.update_nodes, id) is Some implies change_keyed(
                after,
                id,
                lookup(after.update_nodes, id)->0,
            ) by {
                if id != host {
                    assert(lookup(after.update_nodes, id) == lookup(staged.update_nodes, id));
                    assert(change_keyed(staged, id, lookup(staged.update_nodes, id)->0));
                }
            }
            assert forall|id: Uid, e: EdgeDescriptor<EV>| #[trigger]
                staged_adds(after, id, e) <==> staged_adds(staged, id, e) && !(id == host && e
                    == edge) by {
                if id != host {
                    assert(lookup(after.update_nodes, id) == lookup(staged.update_nodes, id));
                }
            }
            assert forall|id: Uid, e: EdgeDescriptor<EV>| #[trigger]
                takes(after, id, e) <==> takes(staged, id, e) by {
                if id != host {
                    assert(lookup(after.update_nodes, id) == lookup(staged.update_nodes, id));
                }
            }
        },
    }
}

/// Whether `after` stages the same records and marks as `before`.
pub open spec fn same_staging<TV, EV>(
    after: BuildBlueprintView<TV, EV>,
    before: BuildBlueprintView<TV, EV>,
) -> bool {
    &&& after.new_nodes == before.new_nodes
    &&& after.update_nodes == before.update_nodes
    &&& after.delete_nodes == before.delete_nodes
}

/// Whether `after` stages the same records, marks and errors as `before`.
pub open spec fn same_records<TV, EV>(
    after: BuildBlueprintView<TV, EV>,
    before: BuildBlueprintView<TV, EV>,
) -> bool {
    same_staging(after, before) && after.errors == before.errors
}

/// Whether records are keyed is a matter of the records alone.
pub proof fn lemma_same_records_keyed<TV, EV, AV>(
    before: BuildBlueprintView<TV, EV>,
    after: BuildBlueprintView<TV, EV>,
    graph: GraphView<TV, EV, AV>,
)
    requires
        records_keyed(before, graph),
        after.new_nodes == before.new_nodes,
        after.update_nodes == before.update_nodes,
    ensures
        records_keyed(after, graph),
{
    reveal(records_keyed);
    assert forall|id: Uid| #[trigger] lookup(after.update_nodes, id) is Some implies change_keyed(
        after,
        id,
        lookup(after.update_nodes, id)->0,
    ) by {
        assert(change_keyed(before, id, lookup(before.update_nodes, id)->0));
    }
}

/// Balance is a matter of the records and the marks alone.
pub proof fn lemma_same_records_balanced<TV, EV, AV>(
    before: BuildBlueprintView<TV, EV>,
    after: BuildBlueprintView<TV, EV>,
    graph: GraphView<TV, EV, AV>,
)
    requires
        balanced(before, graph),
        same_staging(after, before),
    ensures
        balanced(after, graph),
{
    lemma_same_records_keyed(before, after, graph);
    reveal(additions_mirrored);
    reveal(removals_mirrored);
    assert forall|id: Uid, e: EdgeDescriptor<EV>| #[trigger]
        staged_adds(after, id, e) implies e.host == id && (staged_adds(
        after,
        e.target,
        e.spec_invert(),
    ) || marked(after, e.target)) by {
        assert(staged_adds(before, id, e));
    }
    assert forall|id: Uid, e: EdgeDescriptor<EV>|
        #[trigger] takes(after, id, e) && graph_holds(graph, id, e) && !marked(
            after,
            id,
        ) implies marked(after, e.target) || takes(after, e.target, e.spec_invert()) by {
        assert(takes(before, id, e));
    }
}

/// Cataloguing displaced nodes touches no record, mark or error.
pub proof fn lemma_catalog_frame<TV, EV, AV>(
    staged: BuildBlueprintView<TV, EV>,
    graph: Seq<(Uid, NodeView<TV, EV, AV>)>,
    edge: EdgeDescriptor<EV>,
    fuel: nat,
)
    ensures
        same_records(staged.spec_catalog(graph, edge, fuel), staged),
    decreases fuel, 0nat,
{
    if fuel != 0 && edge.render_info == Some(EdgeDir::Recv) {
        match lookup(graph, edge.host) {
            None => {},
            Some(node) => {
                if !has_key(staged.displaced_nodes, node.id) {
                    let remaining = staged.spec_remaining_edges(node, edge);
                    let next = BuildBlueprintView {
                        displaced_nodes: put(
                            staged.displaced_nodes,
                            node.id,
                            NewNodeView {
                                add_edges: remaining,
                                ..NewNodeView::blank(node.id, staged.default_data)
                            },
                        ),
                        ..staged
                    };
                    lemma_catalog_all_frame(next, graph, remaining, (fuel - 1) as nat);
                }
            },
        }
    }
}

/// Cataloguing what a list of edges displaces touches no record, mark or
/// error.
pub proof fn lemma_catalog_all_frame<TV, EV, AV>(
    staged: BuildBlueprintView<TV, EV>,
    graph: Seq<(Uid, NodeView<TV, EV, AV>)>,
    edges: Seq<EdgeDescriptor<EV>>,
    fuel: nat,
)
    ensures
        same_records(staged.spec_catalog_all(graph, edges, fuel), staged),
    decreases fuel, edges.len() + 1,
{
    if edges.len() > 0 {
        lemma_catalog_frame(staged, graph, edges[0].spec_invert(), fuel);
        lemma_catalog_all_frame(
            staged.spec_catalog(graph, edges[0].spec_invert(), fuel),
            graph,
            edges.skip(1),
            fuel,
        );
    }
}

/// A list without duplicates with some items taken out holds what it held
/// but for those items, and is still without duplicates.
pub proof fn lemma_without_each_members<A>(s: Seq<A>, items: Seq<A>, a: A)
    requires
        s.no_duplicates(),
    ensures
        without_each(s, items).no_duplicates(),
        without_each(s, items).contains(a) <==> s.contains(a) && !items.contains(a),
    decreases items.len(),
{
    if items.len() > 0 {
        lemma_without_members(s, items[0], a);
        lemma_without_each_members(without(s, items[0]), items.skip(1), a);
        if items.skip(1).contains(a) {
            let j = choose|j: int| 0 <= j < items.skip(1).len() && items.skip(1)[j] == a;
            assert(items[j + 1] == a);
        }
        if items.contains(a) {
            let j = choose|j: int| 0 <= j < items.len() && items[j] == a;
            if j > 0 {
                assert(items.skip(1)[j - 1] == a);
            }
        }
    }
}

/// What a search collects from a list is in the list and matches the
/// pattern.
pub proof fn lemma_find_edges_sound<EV>(
    edges: Seq<EdgeDescriptor<EV>>,
    finder: EdgeFinderView<EV>,
    e: EdgeDescriptor<EV>,
)
    ensures
        spec_find_edges(edges, finder).contains(e) ==> edges.contains(e) && finder.spec_matches(e),
    decreases edges.len(),
{
    if edges.len() > 0 {
        lemma_find_edges_sound(edges.drop_last(), finder, e);
        let found = spec_find_edges(edges.drop_last(), finder);
        lemma_insert_members(found, edges.last(), e);
        assert(edges[edges.len() - 1] == edges.last());
        if edges.drop_last().contains(e) {
            let j = choose|j: int| 0 <= j < edges.len() - 1 && edges.drop_last()[j] == e;
            assert(edges[j] == e);
        }
    } else {
        assert(spec_find_edges(edges, finder) =~= Seq::empty());
    }
}

/// Whether nothing is staged for addition to node `id`.
pub open spec fn bare<TV, EV>(staged: BuildBlueprintView<TV, EV>, id: Uid) -> bool {
    forall|e: EdgeDescriptor<EV>| !#[trigger] staged_adds(staged, id, e)
}

/// Whether `after` stages no addition that `before` does not.
pub open spec fn no_more_additions<TV, EV>(
    after: BuildBlueprintView<TV, EV>,
    before: BuildBlueprintView<TV, EV>,
) -> bool {
    forall|id: Uid, e: EdgeDescriptor<EV>| #[trigger]
        staged_adds(after, id, e) ==> staged_adds(before, id, e)
}

/// Whether `after` creates the nodes that `before` creates.
pub open spec fn same_new_ids<TV, EV>(
    after: BuildBlueprintView<TV, EV>,
    before: BuildBlueprintView<TV, EV>,
) -> bool {
    forall|id: Uid| #[trigger]
        lookup(after.new_nodes, id) is Some <==> lookup(before.new_nodes, id) is Some
}

/// Closing the ways in from node `id` keeps every record keyed and touches
/// no change, mark or error; it stages no addition, and drops only
/// additions of edges to `id`.
pub proof fn lemma_close_entries_effects<TV, EV, AV>(
    staged: BuildBlueprintView<TV, EV>,
    graph: GraphView<TV, EV, AV>,
    id: Uid,
    entries: Seq<EdgeDescriptor<EV>>,
)
    requires
        records_keyed(staged, graph),
    ensures
        records_keyed(staged.spec_close_entries(id, entries), graph),
        staged.spec_close_entries(id, entries).update_nodes == staged.update_nodes,
        staged.spec_close_entries(id, entries).delete_nodes == staged.delete_nodes,
        staged.spec_close_entries(id, entries).errors == staged.errors,
        same_new_ids(staged.spec_close_entries(id, entries), staged),
        no_more_additions(staged.spec_close_entries(id, entries), staged),
        forall|n: Uid, e: EdgeDescriptor<EV>|
            #[trigger] staged_adds(staged, n, e) && !staged_adds(
                staged.spec_close_entries(id, entries),
                n,
                e,
            ) ==> e.target == id,
    decreases entries.len(),
{
    if entries.len() > 0 {
        let entry = entries[0];
        let first = staged.spec_close_entry(id, entry);
        assert(records_keyed(first, graph) && same_new_ids(first, staged) && no_more_additions(
            first,
            staged,
        ) && (forall|n: Uid, e: EdgeDescriptor<EV>|
            #[trigger] staged_adds(staged, n, e) && !staged_adds(first, n, e) ==> e.target == id))
            by {
            reveal(records_keyed);
            match lookup(staged.new_nodes, entry.target) {
                None => {},
                Some(node) => {
                    let found = spec_find_edges(node.add_edges, all_edges_to(id));
                    let trimmed = NewNodeView {
                        add_edges: without_each(node.add_edges, found),
                        ..node
                    };
                    assert(new_in_place(graph, entry.target, node));
                    lemma_put_keeps_unique(staged.new_nodes, entry.target, trimmed);
                    lemma_lookup_put_same(staged.new_nodes, entry.target, trimmed);
                    assert forall|n: Uid| n != entry.target implies lookup(first.new_nodes, n)
                        == lookup(staged.new_nodes, n) by {
                        lemma_lookup_put_other(staged.new_nodes, entry.target, trimmed, n);
                    }
                    assert forall|e: EdgeDescriptor<EV>|
                        (trimmed.add_edges.contains(e) ==> node.add_edges.contains(e)) && (
                        node.add_edges.contains(e) && !trimmed.add_edges.contains(e) ==> e.target
                            == id) by {
                        lemma_without_each_members(node.add_edges, found, e);
                        lemma_find_edges_sound(node.add_edges, all_edges_to(id), e);
                        if found.contains(e) {
                            assert(set![id].contains(e.target));
                        }
                    }
                    assert(trimmed.add_edges.no_duplicates()) by {
                        lemma_without_each_members(node.add_edges, found, entry);
                    }
                    assert forall|n: Uid| #[trigger]
                        lookup(first.new_nodes, n) is Some implies new_in_place(
                        graph,
                        n,
                        lookup(first.new_nodes, n)->0,
                    ) by {
                        if n != entry.target {
                            assert(lookup(first.new_nodes, n) == lookup(staged.new_nodes, n));
                            assert(new_in_place(graph, n, lookup(staged.new_nodes, n)->0));
                        }
                    }
                    assert forall|n: Uid| #[trigger]
                        lookup(first.update_nodes, n) is Some implies change_keyed(
                        first,
                        n,
                        lookup(first.update_nodes, n)->0,
                    ) by {
                        assert(change_keyed(staged, n, lookup(staged.update_nodes, n)->0));
                        if n != entry.target {
                            assert(lookup(first.new_nodes, n) == lookup(staged.new_nodes, n));
                        }
                    }
                    assert forall|n: Uid, e: EdgeDescriptor<EV>| #[trigger]
                        staged_adds(first, n, e) implies staged_adds(staged, n, e) by {
                        if n != entry.target {
                            assert(lookup(first.new_nodes, n) == lookup(staged.new_nodes, n));
                        }
                    }
                    assert forall|n: Uid, e: EdgeDescriptor<EV>|
                        #[trigger] staged_adds(staged, n, e) && !staged_adds(
                            first,
                            n,
                            e,
                        ) implies e.target == id by {
                        if n != entry.target {
                            assert(lookup(first.new_nodes, n) == lookup(staged.new_nodes, n));
                        }
                    }
                    assert forall|n: Uid| #[trigger]
                        lookup(first.new_nodes, n) is Some <==> lookup(
                            staged.new_nodes,
                            n,
                        ) is Some by {
                        if n != entry.target {
                            assert(lookup(first.new_nodes, n) == lookup(staged.new_nodes, n));
                        }
                    }
                },
            }
        }
        lemma_close_entries_effects(first, graph, id, entries.skip(1));
        let last = staged.spec_close_entries(id, entries);
        assert(last == first.spec_close_entries(id, entries.skip(1)));
        assert forall|n: Uid, e: EdgeDescriptor<EV>|
            #[trigger] staged_adds(staged, n, e) && !staged_adds(last, n, e) implies e.target
            == id by {
            if staged_adds(first, n, e) {
            }
        }
    }
}

/// Whether the far side of `edge` is dealt with: the node there is marked
/// for deletion, or the removal of the mirror of `edge` from it is staged.
pub open spec fn cut_off<TV, EV>(staged: BuildBlueprintView<TV, EV>, edge: EdgeDescriptor<EV>) -> bool {
    marked(staged, edge.target) || takes(staged, edge.target, edge.spec_invert())
}

/// Whether node `id` is a node of the graph that is severed: every edge
/// that the graph holds on it is dealt with at its far side.
pub open spec fn severed_at<TV, EV, AV>(
    staged: BuildBlueprintView<TV, EV>,
    graph: GraphView<TV, EV, AV>,
    id: Uid,
) -> bool {
    graph.node(id) is Some && forall|e: EdgeDescriptor<EV>| #[trigger]
        graph_holds(graph, id, e) ==> cut_off(staged, e)
}

/// A severed node stays severed where marks and removals are kept.
pub proof fn lemma_stays_severed<TV, EV, AV>(
    before: BuildBlueprintView<TV, EV>,
    after: BuildBlueprintView<TV, EV>,
    graph: GraphView<TV, EV, AV>,
    id: Uid,
)
    requires
        severed_at(before, graph, id),
        keeps_marks(after, before),
        keeps_removals(after, before),
    ensures
        severed_at(after, graph, id),
{
    assert forall|e: EdgeDescriptor<EV>| #[trigger] graph_holds(graph, id, e) implies cut_off(
        after,
        e,
    ) by {
        assert(cut_off(before, e));
        if marked(before, e.target) {
            assert(marked(after, e.target));
        } else {
            assert(takes(before, e.target, e.spec_invert()));
        }
    }
}

/// A node of the graph is no new node of a transaction whose records are
/// keyed.
pub proof fn lemma_graph_node_is_not_new<TV, EV, AV>(
    staged: BuildBlueprintView<TV, EV>,
    graph: GraphView<TV, EV, AV>,
    id: Uid,
)
    requires
        records_keyed(staged, graph),
        graph.node(id) is Some,
    ensures
        lookup(staged.new_nodes, id) is None,
{
    reveal(records_keyed);
    if lookup(staged.new_nodes, id) is Some {
        assert(new_in_place(graph, id, lookup(staged.new_nodes, id)->0));
    }
}

/// Severing one edge of a marked node to which nothing is added keeps the
/// balance, and stages the removal of the mirror at the far side.
pub proof fn lemma_sever<TV, EV, AV>(
    staged: BuildBlueprintView<TV, EV>,
    graph: GraphView<TV, EV, AV>,
    id: Uid,
    edge: EdgeDescriptor<EV>,
    fuel: nat,
)
    requires
        balanced(staged, graph),
        graph.symmetric(),
        marked(staged, id),
        bare(staged, id),
        graph_holds(graph, id, edge),
    ensures
        balanced(staged.spec_sever(graph.nodes, edge, fuel), graph),
        bare(staged.spec_sever(graph.nodes, edge, fuel), id),
        staged.spec_sever(graph.nodes, edge, fuel).delete_nodes == staged.delete_nodes,
        staged.spec_sever(graph.nodes, edge, fuel).errors == staged.errors,
        forall|n: Uid, e: EdgeDescriptor<EV>| #[trigger]
            takes(staged, n, e) ==> takes(staged.spec_sever(graph.nodes, edge, fuel), n, e),
        takes(staged.spec_sever(graph.nodes, edge, fuel), edge.target, edge.spec_invert()),
        no_more_additions(staged.spec_sever(graph.nodes, edge, fuel), staged),
{
    let mirror = edge.spec_invert();
    lemma_invert_involution(edge);
    assert(edge.host == id && graph.node(edge.target) is Some);
    lemma_graph_node_is_not_new(staged, graph, edge.target);
    lemma_remove_edge_effects(staged, graph, mirror);
    let cut = staged.spec_remove_edge(mirror);
    let plain = mirror.spec_with_render(None);
    lemma_forget_effects(cut, graph, plain);
    let removed = cut.spec_forget(plain);
    assert(keeps_marks(removed, staged));
    assert forall|n: Uid, e: EdgeDescriptor<EV>| #[trigger]
        staged_adds(removed, n, e) implies staged_adds(staged, n, e) by {
        assert(staged_adds(cut, n, e));
    }
    assert forall|n: Uid, e: EdgeDescriptor<EV>|
        #[trigger] staged_adds(staged, n, e) && !staged_adds(removed, n, e) implies marked(
        removed,
        n,
    ) || !staged_adds(removed, e.target, e.spec_invert()) by {
        if staged_adds(cut, n, e) {
            assert(e == plain);
        } else {
            assert(e == mirror);
        }
        assert(e.target == id);
        assert(!staged_adds(cut, id, e.spec_invert()));
    }
    lemma_fewer_additions(staged, removed);
    assert(keeps_removals(removed, staged)) by {
        assert forall|n: Uid, e: EdgeDescriptor<EV>| #[trigger] takes(staged, n, e) implies takes(
            removed,
            n,
            e,
        ) || marked(removed, n) by {
            assert(takes(cut, n, e));
        }
    }
    assert forall|n: Uid, e: EdgeDescriptor<EV>|
        #[trigger] takes(removed, n, e) && !takes(staged, n, e) && graph_holds(graph, n, e)
            && !marked(removed, n) implies marked(removed, e.target) || takes(
        removed,
        e.target,
        e.spec_invert(),
    ) by {
        assert(takes(cut, n, e));
    }
    lemma_more_removals(staged, removed, graph);
    lemma_catalog_frame(removed, graph.nodes, mirror, fuel);
    let after = staged.spec_sever(graph.nodes, edge, fuel);
    lemma_same_records_balanced(removed, after, graph);
    assert forall|e: EdgeDescriptor<EV>| !#[trigger] staged_adds(after, id, e) by {
        assert(staged_adds(after, id, e) == staged_adds(removed, id, e));
        assert(staged_adds(removed, id, e) ==> staged_adds(cut, id, e));
        assert(!staged_adds(staged, id, e));
    }
    assert forall|n: Uid, e: EdgeDescriptor<EV>| #[trigger] takes(staged, n, e) implies takes(
        after,
        n,
        e,
    ) by {
        assert(takes(cut, n, e));
        assert(takes(removed, n, e));
    }
    assert(takes(cut, edge.target, mirror));
    assert(takes(removed, edge.target, mirror));
    assert forall|n: Uid, e: EdgeDescriptor<EV>| #[trigger]
        staged_adds(after, n, e) implies staged_adds(staged, n, e) by {
        assert(staged_adds(after, n, e) == staged_adds(removed, n, e));
    }
}

/// Severing some edges of a marked node to which nothing is added keeps
/// the balance, and stages the removal of the mirror of each.
pub proof fn lemma_sever_list<TV, EV, AV>(
    staged: BuildBlueprintView<TV, EV>,
    graph: GraphView<TV, EV, AV>,
    id: Uid,
    edges: Seq<EdgeDescriptor<EV>>,
    fuel: nat,
)
    requires
        balanced(staged, graph),
        graph.symmetric(),
        marked(staged, id),
        bare(staged, id),
        forall|e: EdgeDescriptor<EV>| #[trigger] edges.contains(e) ==> graph_holds(graph, id, e),
    ensures
        balanced(staged.spec_sever_list(graph.nodes, edges, fuel), graph),
        no_more_additions(staged.spec_sever_list(graph.nodes, edges, fuel), staged),
        bare(staged.spec_sever_list(graph.nodes, edges, fuel), id),
        staged.spec_sever_list(graph.nodes, edges, fuel).delete_nodes == staged.delete_nodes,
        staged.spec_sever_list(graph.nodes, edges, fuel).errors == staged.errors,
        forall|n: Uid, e: EdgeDescriptor<EV>| #[trigger]
            takes(staged, n, e) ==> takes(staged.spec_sever_list(graph.nodes, edges, fuel), n, e),
        forall|e: EdgeDescriptor<EV>| #[trigger]
            edges.contains(e) ==> takes(
                staged.spec_sever_list(graph.nodes, edges, fuel),
                e.target,
                e.spec_invert(),
            ),
    decreases edges.len(),
{
    if edges.len() > 0 {
        assert(edges.contains(edges[0]));
        lemma_sever(staged, graph, id, edges[0], fuel);
        let first = staged.spec_sever(graph.nodes, edges[0], fuel);
        assert forall|e: EdgeDescriptor<EV>| #[trigger] edges.skip(1).contains(e) implies graph_holds(
            graph,
            id,
            e,
        ) by {
            let j = choose|j: int| 0 <= j < edges.skip(1).len() && edges.skip(1)[j] == e;
            assert(edges[j + 1] == e);
            assert(edges.contains(e));
        }
        lemma_sever_list(first, graph, id, edges.skip(1), fuel);
        let last = staged.spec_sever_list(graph.nodes, edges, fuel);
        assert forall|n: Uid, e: EdgeDescriptor<EV>| #[trigger]
            staged_adds(last, n, e) implies staged_adds(staged, n, e) by {
            assert(staged_adds(first, n, e));
        }
        assert forall|n: Uid, e: EdgeDescriptor<EV>| #[trigger] takes(staged, n, e) implies takes(
            last,
            n,
            e,
        ) by {
            assert(takes(first, n, e));
        }
        assert forall|e: EdgeDescriptor<EV>| #[trigger] edges.contains(e) implies takes(
            last,
            e.target,
            e.spec_invert(),
        ) by {
            let j = choose|j: int| 0 <= j < edges.len() && edges[j] == e;
            if j == 0 {
                assert(takes(first, e.target, e.spec_invert()));
            } else {
                assert(edges.skip(1)[j - 1] == e);
                assert(edges.skip(1).contains(e));
            }
        }
    }
}

/// Severing the edges in the lists of a map, all of them edges of a marked
/// node to which nothing is added, keeps the balance, and stages the
/// removal of the mirror of each.
pub proof fn lemma_sever_map<TV, EV, AV>(
    staged: BuildBlueprintView<TV, EV>,
    graph: GraphView<TV, EV, AV>,
    id: Uid,
    map: Seq<(EV, Seq<EdgeDescriptor<EV>>)>,
    fuel: nat,
)
    requires
        balanced(staged, graph),
        graph.symmetric(),
        marked(staged, id),
        bare(staged, id),
        forall|e: EdgeDescriptor<EV>| #[trigger] listed(map, e) ==> graph_holds(graph, id, e),
    ensures
        balanced(staged.spec_sever_map(graph.nodes, map, fuel), graph),
        no_more_additions(staged.spec_sever_map(graph.nodes, map, fuel), staged),
        bare(staged.spec_sever_map(graph.nodes, map, fuel), id),
        staged.spec_sever_map(graph.nodes, map, fuel).delete_nodes == staged.delete_nodes,
        staged.spec_sever_map(graph.nodes, map, fuel).errors == staged.errors,
        forall|n: Uid, e: EdgeDescriptor<EV>| #[trigger]
            takes(staged, n, e) ==> takes(staged.spec_sever_map(graph.nodes, map, fuel), n, e),
        forall|e: EdgeDescriptor<EV>| #[trigger]
            listed(map, e) ==> takes(
                staged.spec_sever_map(graph.nodes, map, fuel),
                e.target,
                e.spec_invert(),
            ),
    decreases map.len(),
{
    if map.len() > 0 {
        assert forall|e: EdgeDescriptor<EV>| #[trigger] map[0].1.contains(e) implies graph_holds(
            graph,
            id,
            e,
        ) by {
            assert(listed(map, e));
        }
        lemma_sever_list(staged, graph, id, map[0].1, fuel);
        let first = staged.spec_sever_list(graph.nodes, map[0].1, fuel);
        assert forall|e: EdgeDescriptor<EV>| #[trigger] listed(map.skip(1), e) implies graph_holds(
            graph,
            id,
            e,
        ) by {
            let i = choose|i: int| 0 <= i < map.skip(1).len() && (#[trigger] map.skip(1)[i]).1.contains(e);
            assert(map[i + 1].1.contains(e));
            assert(listed(map, e));
        }
        lemma_sever_map(first, graph, id, map.skip(1), fuel);
        let last = staged.spec_sever_map(graph.nodes, map, fuel);
        assert forall|n: Uid, e: EdgeDescriptor<EV>| #[trigger]
            staged_adds(last, n, e) implies staged_adds(staged, n, e) by {
            assert(staged_adds(first, n, e));
        }
        assert forall|n: Uid, e: EdgeDescriptor<EV>| #[trigger] takes(staged, n, e) implies takes(
            last,
            n,
            e,
        ) by {
            assert(takes(first, n, e));
        }
        assert forall|e: EdgeDescriptor<EV>| #[trigger] listed(map, e) implies takes(
            last,
            e.target,
            e.spec_invert(),
        ) by {
            let i = choose|i: int| 0 <= i < map.len() && (#[trigger] map[i]).1.contains(e);
            if i == 0 {
                assert(takes(first, e.target, e.spec_invert()));
            } else {
                assert(map.skip(1)[i - 1].1.contains(e));
                assert(listed(map.skip(1), e));
            }
        }
    }
}

/// Carrying the deletion of a marked node through what is staged adds an
/// error or keeps the balance; then the node is severed, and every removal
/// stays staged but those from the node itself.
pub proof fn lemma_delete_one_balanced<TV, EV, AV>(
    staged: BuildBlueprintView<TV, EV>,
    graph: GraphView<TV, EV, AV>,
    id: Uid,
    fuel: nat,
)
    requires
        balanced(staged, graph),
        graph.in_order(),
        graph.symmetric(),
        marked(staged, id),
    ensures
        staged.spec_delete_one(graph.nodes, id, fuel).delete_nodes == staged.delete_nodes,
        staged.spec_delete_one(graph.nodes, id, fuel).errors.len() >= staged.errors.len(),
        staged.spec_delete_one(graph.nodes, id, fuel).errors.len() == staged.errors.len() ==> {
            &&& balanced(staged.spec_delete_one(graph.nodes, id, fuel), graph)
            &&& keeps_removals(staged.spec_delete_one(graph.nodes, id, fuel), staged)
            &&& no_more_additions(staged.spec_delete_one(graph.nodes, id, fuel), staged)
            &&& severed_at(staged.spec_delete_one(graph.nodes, id, fuel), graph, id)
        },
{
    let entries = keep(staged.entry_edges, |e: EdgeDescriptor<EV>| e.host == id);
    lemma_close_entries_effects(staged, graph, id, entries);
    let closed = staged.spec_close_entries(id, entries);
    let dropped = BuildBlueprintView { update_nodes: drop_key(closed.update_nodes, id), ..closed };
    match graph.node(id) {
        None => {},
        Some(node) => {
            lemma_graph_node_is_not_new(staged, graph, id);
            assert(unique_keys(staged.update_nodes)) by {
                reveal(records_keyed);
            }
            lemma_lookup_drop_same(staged.update_nodes, id);
            lemma_drop_keeps_unique(staged.update_nodes, id);
            assert forall|n: Uid| n != id implies lookup(dropped.update_nodes, n) == lookup(
                staged.update_nodes,
                n,
            ) by {
                lemma_lookup_drop_other(staged.update_nodes, id, n);
            }
            assert(records_keyed(dropped, graph)) by {
                reveal(records_keyed);
                assert forall|n: Uid| #[trigger]
                    lookup(dropped.update_nodes, n) is Some implies change_keyed(
                    dropped,
                    n,
                    lookup(dropped.update_nodes, n)->0,
                ) by {
                    assert(lookup(dropped.update_nodes, n) == lookup(staged.update_nodes, n));
                    assert(change_keyed(closed, n, lookup(closed.update_nodes, n)->0));
                }
            }
            assert(bare(dropped, id)) by {
                assert(lookup(dropped.new_nodes, id) is None);
            }
            assert(keeps_marks(dropped, staged));
            assert forall|n: Uid, e: EdgeDescriptor<EV>| #[trigger]
                staged_adds(dropped, n, e) implies staged_adds(staged, n, e) by {
                if n != id {
                    assert(lookup(dropped.update_nodes, n) == lookup(staged.update_nodes, n));
                    assert(staged_adds(closed, n, e));
                }
            }
            assert forall|n: Uid, e: EdgeDescriptor<EV>|
                #[trigger] staged_adds(staged, n, e) && !staged_adds(dropped, n, e) implies marked(
                dropped,
                n,
            ) || !staged_adds(dropped, e.target, e.spec_invert()) by {
                if n != id {
                    assert(lookup(dropped.update_nodes, n) == lookup(staged.update_nodes, n));
                    assert(!staged_adds(closed, n, e));
                    assert(e.target == id);
                }
            }
            lemma_fewer_additions(staged, dropped);
            assert(keeps_removals(dropped, staged)) by {
                assert forall|n: Uid, e: EdgeDescriptor<EV>| #[trigger]
                    takes(staged, n, e) implies takes(dropped, n, e) || marked(dropped, n) by {
                    if n != id {
                        assert(lookup(dropped.update_nodes, n) == lookup(staged.update_nodes, n));
                    }
                }
            }
            assert forall|n: Uid, e: EdgeDescriptor<EV>|
                #[trigger] takes(dropped, n, e) && !takes(staged, n, e) && graph_holds(graph, n, e)
                    && !marked(dropped, n) implies marked(dropped, e.target) || takes(
                dropped,
                e.target,
                e.spec_invert(),
            ) by {
                if n != id {
                    assert(lookup(dropped.update_nodes, n) == lookup(staged.update_nodes, n));
                }
            }
            lemma_more_removals(staged, dropped, graph);
            assert(node.in_order());
            assert forall|e: EdgeDescriptor<EV>| #[trigger]
                listed(node.incoming_edges, e) implies graph_holds(graph, id, e) by {
                lemma_listed_is_held(node.incoming_edges, EdgeDir::Recv, e);
            }
            assert forall|e: EdgeDescriptor<EV>| #[trigger]
                listed(node.outgoing_edges, e) implies graph_holds(graph, id, e) by {
                lemma_listed_is_held(node.outgoing_edges, EdgeDir::Emit, e);
            }
            lemma_sever_map(dropped, graph, id, node.incoming_edges, fuel);
            let half = dropped.spec_sever_map(graph.nodes, node.incoming_edges, fuel);
            lemma_sever_map(half, graph, id, node.outgoing_edges, fuel);
            let after = half.spec_sever_map(graph.nodes, node.outgoing_edges, fuel);
            assert(after == staged.spec_delete_one(graph.nodes, id, fuel));
            assert forall|n: Uid, e: EdgeDescriptor<EV>| #[trigger]
                staged_adds(after, n, e) implies staged_adds(staged, n, e) by {
                assert(staged_adds(half, n, e));
                assert(staged_adds(dropped, n, e));
            }
            assert forall|n: Uid, e: EdgeDescriptor<EV>| #[trigger] takes(staged, n, e) implies takes(
                after,
                n,
                e,
            ) || marked(after, n) by {
                if takes(dropped, n, e) {
                    assert(takes(half, n, e));
                }
            }
            assert forall|e: EdgeDescriptor<EV>| #[trigger] graph_holds(graph, id, e) implies cut_off(
                after,
                e,
            ) by {
                lemma_listed_is_held(node.incoming_edges, EdgeDir::Recv, e);
                lemma_listed_is_held(node.outgoing_edges, EdgeDir::Emit, e);
                if listed(node.incoming_edges, e) {
                    assert(takes(half, e.target, e.spec_invert()));
                } else {
                    assert(listed(node.outgoing_edges, e));
                }
            }
        },
    }
}

/// Carrying the deletions of marked nodes through what is staged adds an
/// error or keeps the balance; then each of the nodes is severed, and every
/// removal stays staged but those from marked nodes.
pub proof fn lemma_delete_each_balanced<TV, EV, AV>(
    staged: BuildBlueprintView<TV, EV>,
    graph: GraphView<TV, EV, AV>,
    ids: Seq<Uid>,
    fuel: nat,
)
    requires
        balanced(staged, graph),
        graph.in_order(),
        graph.symmetric(),
        forall|id: Uid| ids.contains(id) ==> marked(staged, id),
    ensures
        staged.spec_delete_each(graph.nodes, ids, fuel).delete_nodes == staged.delete_nodes,
        staged.spec_delete_each(graph.nodes, ids, fuel).errors.len() >= staged.errors.len(),
        staged.spec_delete_each(graph.nodes, ids, fuel).errors.len() == staged.errors.len() ==> {
            &&& balanced(staged.spec_delete_each(graph.nodes, ids, fuel), graph)
            &&& keeps_removals(staged.spec_delete_each(graph.nodes, ids, fuel), staged)
            &&& no_more_additions(staged.spec_delete_each(graph.nodes, ids, fuel), staged)
            &&& forall|id: Uid|
                ids.contains(id) ==> #[trigger] severed_at(
                    staged.spec_delete_each(graph.nodes, ids, fuel),
                    graph,
                    id,
                )
        },
    decreases ids.len(),
{
    if ids.len() > 0 {
        assert(ids.contains(ids[0]));
        lemma_delete_one_balanced(staged, graph, ids[0], fuel);
        let first = staged.spec_delete_one(graph.nodes, ids[0], fuel);
        let last = staged.spec_delete_each(graph.nodes, ids, fuel);
        assert(last == first.spec_delete_each(graph.nodes, ids.skip(1), fuel));
        crate::laws::cascade::lemma_delete_each_carries(first, graph.nodes, ids.skip(1), fuel);
        if last.errors.len() == staged.errors.len() {
            assert forall|id: Uid| ids.skip(1).contains(id) implies marked(first, id) by {
                let j = choose|j: int| 0 <= j < ids.skip(1).len() && ids.skip(1)[j] == id;
                assert(ids[j + 1] == id);
                assert(ids.contains(id));
            }
            lemma_delete_each_balanced(first, graph, ids.skip(1), fuel);
            assert(keeps_marks(last, first));
            assert forall|n: Uid, e: EdgeDescriptor<EV>| #[trigger]
                staged_adds(last, n, e) implies staged_adds(staged, n, e) by {
                assert(staged_adds(first, n, e));
            }
            assert forall|n: Uid, e: EdgeDescriptor<EV>| #[trigger] takes(staged, n, e) implies takes(
                last,
                n,
                e,
            ) || marked(last, n) by {
                if takes(first, n, e) {
                } else {
                    assert(marked(first, n));
                }
            }
            assert forall|id: Uid| ids.contains(id) implies #[trigger] severed_at(
                last,
                graph,
                id,
            ) by {
                let j = choose|j: int| 0 <= j < ids.len() && ids[j] == id;
                if j == 0 {
                    lemma_stays_severed(first, last, graph, id);
                } else {
                    assert(ids.skip(1)[j - 1] == id);
                    assert(ids.skip(1).contains(id));
                }
            }
        }
    }
}

/// What a search finds on a node in order is held by the node.
pub proof fn lemma_found_is_held<TV, EV, AV>(
    node: NodeView<TV, EV, AV>,
    finder: EdgeFinderView<EV>,
    e: EdgeDescriptor<EV>,
)
    requires
        node.in_order(),
        node.spec_search_for_edge(finder) is Some,
        node.spec_search_for_edge(finder)->0.contains(e),
    ensures
        node.holds(e),
{
    let incoming = node.spec_found_incoming(finder);
    lemma_search_map_sound(Seq::empty(), node.incoming_edges, finder, e);
    lemma_search_map_sound(incoming, node.outgoing_edges, finder, e);
    assert(!Seq::<EdgeDescriptor<EV>>::empty().contains(e));
    lemma_listed_is_held(node.incoming_edges, EdgeDir::Recv, e);
    lemma_listed_is_held(node.outgoing_edges, EdgeDir::Emit, e);
}

/// Whether `after` stages every removal of `before`.
pub open spec fn no_fewer_removals<TV, EV>(
    after: BuildBlueprintView<TV, EV>,
    before: BuildBlueprintView<TV, EV>,
) -> bool {
    forall|id: Uid, e: EdgeDescriptor<EV>| #[trigger] takes(before, id, e) ==> takes(after, id, e)
}

/// Cutting an edge of the graph on both sides keeps the balance and every
/// removal, and touches no mark or error.
pub proof fn lemma_cut<TV, EV, AV>(
    staged: BuildBlueprintView<TV, EV>,
    graph: GraphView<TV, EV, AV>,
    edge: EdgeDescriptor<EV>,
    fuel: nat,
)
    requires
        balanced(staged, graph),
        graph.symmetric(),
        graph_holds(graph, edge.host, edge),
    ensures
        balanced(staged.spec_cut(graph.nodes, edge, fuel), graph),
        staged.spec_cut(graph.nodes, edge, fuel).delete_nodes == staged.delete_nodes,
        staged.spec_cut(graph.nodes, edge, fuel).errors == staged.errors,
        no_fewer_removals(staged.spec_cut(graph.nodes, edge, fuel), staged),
        no_more_additions(staged.spec_cut(graph.nodes, edge, fuel), staged),
{
    let mirror = edge.spec_invert();
    lemma_invert_involution(edge);
    assert(graph.node(edge.target) is Some);
    lemma_graph_node_is_not_new(staged, graph, edge.target);
    lemma_graph_node_is_not_new(staged, graph, edge.host);
    let a = staged.spec_catalog(graph.nodes, mirror, fuel);
    lemma_catalog_frame(staged, graph.nodes, mirror, fuel);
    lemma_same_records_keyed(staged, a, graph);
    lemma_remove_edge_effects(a, graph, mirror);
    let b = a.spec_remove_edge(mirror);
    let c = b.spec_catalog(graph.nodes, edge, fuel);
    lemma_catalog_frame(b, graph.nodes, edge, fuel);
    lemma_same_records_keyed(b, c, graph);
    lemma_remove_edge_effects(c, graph, edge);
    let after = c.spec_remove_edge(edge);
    assert(after == staged.spec_cut(graph.nodes, edge, fuel));
    assert forall|id: Uid, e: EdgeDescriptor<EV>| #[trigger]
        staged_adds(after, id, e) <==> staged_adds(staged, id, e) && !(id == edge.target && e
            == mirror) && !(id == edge.host && e == edge) by {
        assert(staged_adds(c, id, e) == staged_adds(b, id, e));
        assert(staged_adds(a, id, e) == staged_adds(staged, id, e));
    }
    assert forall|id: Uid, e: EdgeDescriptor<EV>| #[trigger]
        takes(after, id, e) <==> takes(staged, id, e) || (id == edge.target && e == mirror) || (id
            == edge.host && e == edge) by {
        assert(takes(c, id, e) == takes(b, id, e));
        assert(takes(a, id, e) == takes(staged, id, e));
    }
    assert(keeps_marks(after, staged));
    lemma_fewer_additions(staged, after);
    assert(keeps_removals(after, staged));
    lemma_more_removals(staged, after, graph);
}

/// Cutting edges of the graph on both sides keeps the balance and every
/// removal, and touches no mark or error.
pub proof fn lemma_cut_each<TV, EV, AV>(
    staged: BuildBlueprintView<TV, EV>,
    graph: GraphView<TV, EV, AV>,
    edges: Seq<EdgeDescriptor<EV>>,
    fuel: nat,
)
    requires
        balanced(staged, graph),
        graph.symmetric(),
        forall|e: EdgeDescriptor<EV>| #[trigger] edges.contains(e) ==> graph_holds(graph, e.host, e),
    ensures
        balanced(staged.spec_cut_each(graph.nodes, edges, fuel), graph),
        staged.spec_cut_each(graph.nodes, edges, fuel).delete_nodes == staged.delete_nodes,
        staged.spec_cut_each(graph.nodes, edges, fuel).errors == staged.errors,
        no_fewer_removals(staged.spec_cut_each(graph.nodes, edges, fuel), staged),
        no_more_additions(staged.spec_cut_each(graph.nodes, edges, fuel), staged),
    decreases edges.len(),
{
    if edges.len() > 0 {
        assert(edges.contains(edges[0]));
        lemma_cut(staged, graph, edges[0], fuel);
        let first = staged.spec_cut(graph.nodes, edges[0], fuel);
        assert forall|e: EdgeDescriptor<EV>| #[trigger] edges.skip(1).contains(e) implies graph_holds(
            graph,
            e.host,
            e,
        ) by {
            let j = choose|j: int| 0 <= j < edges.skip(1).len() && edges.skip(1)[j] == e;
            assert(edges[j + 1] == e);
            assert(edges.contains(e));
        }
        lemma_cut_each(first, graph, edges.skip(1), fuel);
        let last = staged.spec_cut_each(graph.nodes, edges, fuel);
        assert forall|id: Uid, e: EdgeDescriptor<EV>| #[trigger]
            staged_adds(last, id, e) implies staged_adds(staged, id, e) by {
            assert(staged_adds(first, id, e));
        }
        assert forall|id: Uid, e: EdgeDescriptor<EV>| #[trigger] takes(staged, id, e) implies takes(
            last,
            id,
            e,
        ) by {
            assert(takes(first, id, e));
        }
    }
}

/// Settling queued removals against the graph keeps the balance, every
/// mark and every removal, and loses no error.
pub proof fn lemma_removals_balanced<TV, EV, AV>(
    staged: BuildBlueprintView<TV, EV>,
    graph: GraphView<TV, EV, AV>,
    removals: Seq<(Uid, EdgeFinderView<EV>)>,
    fuel: nat,
)
    requires
        balanced(staged, graph),
        graph.in_order(),
        graph.symmetric(),
    ensures
        balanced(staged.spec_resolve_removals(graph.nodes, removals, fuel), graph),
        staged.spec_resolve_removals(graph.nodes, removals, fuel).delete_nodes
            == staged.delete_nodes,
        staged.spec_resolve_removals(graph.nodes, removals, fuel).errors.len()
            >= staged.errors.len(),
        no_fewer_removals(staged.spec_resolve_removals(graph.nodes, removals, fuel), staged),
        no_more_additions(staged.spec_resolve_removals(graph.nodes, removals, fuel), staged),
    decreases removals.len(),
{
    if removals.len() > 0 {
        let first = staged.spec_resolve_removal(graph.nodes, removals[0], fuel);
        assert(balanced(first, graph) && first.delete_nodes == staged.delete_nodes
            && first.errors.len() >= staged.errors.len() && no_fewer_removals(first, staged)
            && no_more_additions(first, staged)) by {
            match graph.node(removals[0].0) {
                None => {
                    lemma_same_records_balanced(staged, first, graph);
                },
                Some(node) => match node.spec_search_for_edge(removals[0].1) {
                    None => {
                        lemma_same_records_balanced(staged, first, graph);
                    },
                    Some(found) => {
                        assert forall|e: EdgeDescriptor<EV>| #[trigger]
                            found.contains(e) implies graph_holds(graph, e.host, e) by {
                            lemma_found_is_held(node, removals[0].1, e);
                            assert(graph_holds(graph, removals[0].0, e));
                        }
                        lemma_cut_each(staged, graph, found, fuel);
                    },
                },
            }
        }
        lemma_removals_balanced(first, graph, removals.skip(1), fuel);
        let last = staged.spec_resolve_removals(graph.nodes, removals, fuel);
        assert forall|id: Uid, e: EdgeDescriptor<EV>| #[trigger]
            staged_adds(last, id, e) implies staged_adds(staged, id, e) by {
            assert(staged_adds(first, id, e));
        }
        assert forall|id: Uid, e: EdgeDescriptor<EV>| #[trigger] takes(staged, id, e) implies takes(
            last,
            id,
            e,
        ) by {
            assert(takes(first, id, e));
        }
    }
}

/// Noting the ways into a displaced node touches no record, mark or error.
pub proof fn lemma_note_entries_frame<TV, EV, AV>(
    staged: BuildBlueprintView<TV, EV>,
    graph: Seq<(Uid, NodeView<TV, EV, AV>)>,
    id: Uid,
    edges: Seq<EdgeDescriptor<EV>>,
)
    ensures
        same_records(staged.spec_note_entries(graph, id, edges), staged),
    decreases edges.len(),
{
    if edges.len() > 0 {
        let first = if staged.spec_offers_entry(graph, id, edges[0]) {
            BuildBlueprintView {
                displaced_entry_edges: insert_unique(
                    staged.displaced_entry_edges,
                    edges[0].spec_invert(),
                ),
                ..staged
            }
        } else {
            staged
        };
        lemma_note_entries_frame(first, graph, id, edges.skip(1));
    }
}

/// Noting the ways into displaced nodes touches no record, mark or error.
pub proof fn lemma_note_all_frame<TV, EV, AV>(
    staged: BuildBlueprintView<TV, EV>,
    graph: Seq<(Uid, NodeView<TV, EV, AV>)>,
    nodes: Seq<(Uid, NewNodeView<TV, EV>)>,
)
    ensures
        same_records(staged.spec_note_all_entries(graph, nodes), staged),
    decreases nodes.len(),
{
    if nodes.len() > 0 {
        lemma_note_entries_frame(staged, graph, nodes[0].0, nodes[0].1.add_edges);
        lemma_note_all_frame(
            staged.spec_note_entries(graph, nodes[0].0, nodes[0].1.add_edges),
            graph,
            nodes.skip(1),
        );
    }
}

/// What is staged with `edge` marked on its host as `render_info` says: in
/// the record of a new node, or else as a change.
pub open spec fn with_mark<TV, EV>(
    staged: BuildBlueprintView<TV, EV>,
    edge: EdgeDescriptor<EV>,
    render_info: Option<EdgeDir>,
) -> BuildBlueprintView<TV, EV> {
    match lookup(staged.new_nodes, edge.host) {
        Some(node) => BuildBlueprintView {
            new_nodes: put(
                staged.new_nodes,
                edge.host,
                NewNodeView { add_edges: spec_retag(node.add_edges, edge, render_info), ..node },
            ),
            ..staged
        },
        None => BuildBlueprintView {
            update_nodes: put(
                staged.update_nodes,
                edge.host,
                staged.update_node_or_blank(edge.host).spec_update_edge_render_info(
                    edge,
                    render_info,
                ),
            ),
            ..staged
        },
    }
}

/// Marking an edge on its host keeps every record keyed. The marked edge
/// takes the place of the edge among what is staged for addition to the
/// host; and where the host is no new node and the edge was not staged for
/// addition, its removal is staged, and no other.
pub proof fn lemma_mark_effects<TV, EV, AV>(
    staged: BuildBlueprintView<TV, EV>,
    graph: GraphView<TV, EV, AV>,
    edge: EdgeDescriptor<EV>,
    render_info: Option<EdgeDir>,
)
    requires
        records_keyed(staged, graph),
    ensures
        records_keyed(with_mark(staged, edge, render_info), graph),
        with_mark(staged, edge, render_info).delete_nodes == staged.delete_nodes,
        with_mark(staged, edge, render_info).errors == staged.errors,
        same_new_ids(with_mark(staged, edge, render_info), staged),
        forall|n: Uid, e: EdgeDescriptor<EV>| #[trigger]
            staged_adds(with_mark(staged, edge, render_info), n, e) <==> (if n == edge.host {
                (staged_adds(staged, n, e) && e != edge) || e == edge.spec_with_render(render_info)
            } else {
                staged_adds(staged, n, e)
            }),
        no_fewer_removals(with_mark(staged, edge, render_info), staged),
        forall|n: Uid, e: EdgeDescriptor<EV>|
            #[trigger] takes(with_mark(staged, edge, render_info), n, e) && !takes(staged, n, e)
                ==> n == edge.host && e == edge && !staged_adds(staged, n, edge),
        lookup(staged.new_nodes, edge.host) is None && !staged_adds(staged, edge.host, edge)
            ==> takes(with_mark(staged, edge, render_info), edge.host, edge),
{
    reveal(records_keyed);
    let after = with_mark(staged, edge, render_info);
    let host = edge.host;
    let tagged = edge.spec_with_render(render_info);
    match lookup(staged.new_nodes, host) {
        Some(node) => {
            assert(new_in_place(graph, host, node));
            let marked_node = NewNodeView {
                add_edges: spec_retag(node.add_edges, edge, render_info),
                ..node
            };
            lemma_put_keeps_unique(staged.new_nodes, host, marked_node);
            lemma_lookup_put_same(staged.new_nodes, host, marked_node);
            assert forall|n: Uid| n != host implies lookup(after.new_nodes, n) == lookup(
                staged.new_nodes,
                n,
            ) by {
                lemma_lookup_put_other(staged.new_nodes, host, marked_node, n);
            }
            assert forall|e: EdgeDescriptor<EV>|
                marked_node.add_edges.contains(e) <==> (node.add_edges.contains(e) && e != edge)
                    || e == tagged by {
                lemma_retag_members(node.add_edges, edge, render_info, e);
            }
            assert(marked_node.add_edges.no_duplicates()) by {
                lemma_retag_members(node.add_edges, edge, render_info, edge);
            }
            if lookup(staged.update_nodes, host) is Some {
                assert(change_keyed(staged, host, lookup(staged.update_nodes, host)->0));
            }
            assert forall|n: Uid| #[trigger] lookup(after.new_nodes, n) is Some implies new_in_place(
                graph,
                n,
                lookup(after.new_nodes, n)->0,
            ) by {
                if n != host {
                    assert(lookup(after.new_nodes, n) == lookup(staged.new_nodes, n));
                    assert(new_in_place(graph, n, lookup(staged.new_nodes, n)->0));
                }
            }
            assert forall|n: Uid| #[trigger]
                lookup(after.update_nodes, n) is Some implies change_keyed(
                after,
                n,
                lookup(after.update_nodes, n)->0,
            ) by {
                assert(change_keyed(staged, n, lookup(staged.update_nodes, n)->0));
                assert(n != host);
                assert(lookup(after.new_nodes, n) == lookup(staged.new_nodes, n));
            }
            assert forall|n: Uid| #[trigger]
                lookup(after.new_nodes, n) is Some <==> lookup(staged.new_nodes, n) is Some by {
                if n != host {
                    assert(lookup(after.new_nodes, n) == lookup(staged.new_nodes, n));
                }
            }
            assert forall|n: Uid, e: EdgeDescriptor<EV>| #[trigger]
                staged_adds(after, n, e) <==> (if n == host {
                    (staged_adds(staged, n, e) && e != edge) || e == tagged
                } else {
                    staged_adds(staged, n, e)
                }) by {
                if n != host {
                    assert(lookup(after.new_nodes, n) == lookup(staged.new_nodes, n));
                }
            }
        },
        None => {
            let change = staged.update_node_or_blank(host);
            let marked_change = change.spec_update_edge_render_info(edge, render_info);
            if lookup(staged.update_nodes, host) is Some {
                assert(change_keyed(staged, host, change));
            }
            lemma_put_keeps_unique(staged.update_nodes, host, marked_change);
            lemma_lookup_put_same(staged.update_nodes, host, marked_change);
            assert forall|n: Uid| n != host implies lookup(after.update_nodes, n) == lookup(
                staged.update_nodes,
                n,
            ) by {
                lemma_lookup_put_other(staged.update_nodes, host, marked_change, n);
            }
            assert forall|e: EdgeDescriptor<EV>|
                (items_of(marked_change.add_edges).contains(e) <==> (items_of(
                    change.add_edges,
                ).contains(e) && e != edge) || e == tagged) && (items_of(
                    marked_change.remove_edges,
                ).contains(e) <==> items_of(change.remove_edges).contains(e) || (e == edge
                    && !items_of(change.add_edges).contains(edge))) by {
                lemma_retag_members(items_of(change.add_edges), edge, render_info, e);
                lemma_insert_members(items_of(change.remove_edges), edge, e);
            }
            assert(items_of(marked_change.add_edges).no_duplicates()) by {
                lemma_retag_members(items_of(change.add_edges), edge, render_info, edge);
            }
            assert forall|n: Uid| #[trigger]
                lookup(after.update_nodes, n) is Some implies change_keyed(
                after,
                n,
                lookup(after.update_nodes, n)->0,
            ) by {
                if n != host {
                    assert(lookup(after.update_nodes, n) == lookup(staged.update_nodes, n));
                    assert(change_keyed(staged, n, lookup(staged.update_nodes, n)->0));
                }
            }
            assert forall|n: Uid, e: EdgeDescriptor<EV>| #[trigger]
                staged_adds(after, n, e) <==> (if n == host {
                    (staged_adds(staged, n, e) && e != edge) || e == tagged
                } else {
                    staged_adds(staged, n, e)
                }) by {
                if n != host {
                    assert(lookup(after.update_nodes, n) == lookup(staged.update_nodes, n));
                }
            }
            assert forall|n: Uid, e: EdgeDescriptor<EV>| #[trigger] takes(staged, n, e) implies takes(
                after,
                n,
                e,
            ) by {
                if n != host {
                    assert(lookup(after.update_nodes, n) == lookup(staged.update_nodes, n));
                }
            }
            assert forall|n: Uid, e: EdgeDescriptor<EV>|
                #[trigger] takes(after, n, e) && !takes(staged, n, e) implies n == host && e
                == edge && !staged_adds(staged, n, edge) by {
                if n != host {
                    assert(lookup(after.update_nodes, n) == lookup(staged.update_nodes, n));
                }
            }
        },
    }
}

/// What is staged with `edge` marked on its host as `render_info` says, and
/// its mirror marked on its target with the mirrored mark.
pub open spec fn with_both_marked<TV, EV>(
    staged: BuildBlueprintView<TV, EV>,
    edge: EdgeDescriptor<EV>,
    render_info: Option<EdgeDir>,
) -> BuildBlueprintView<TV, EV> {
    with_mark(
        with_mark(staged, edge, render_info),
        edge.spec_invert(),
        spec_invert_render(render_info),
    )
}

/// Marking an edge on both of its sides keeps the balance and every
/// removal, and touches no mark or error.
pub proof fn lemma_mark_both_balanced<TV, EV, AV>(
    staged: BuildBlueprintView<TV, EV>,
    graph: GraphView<TV, EV, AV>,
    connection: EdgeDescriptor<EV>,
    render_info: Option<EdgeDir>,
)
    requires
        balanced(staged, graph),
        graph.in_order(),
        graph.symmetric(),
    ensures
        balanced(with_both_marked(staged, connection, render_info), graph),
        with_both_marked(staged, connection, render_info).delete_nodes == staged.delete_nodes,
        with_both_marked(staged, connection, render_info).errors == staged.errors,
        no_fewer_removals(with_both_marked(staged, connection, render_info), staged),
{
    let host = connection.host;
    let target = connection.target;
    let tagged = connection.spec_with_render(render_info);
    let mirror = connection.spec_invert();
    let tagged_mirror = mirror.spec_with_render(spec_invert_render(render_info));
    lemma_invert_involution(connection);
    assert(tagged.spec_invert() == tagged_mirror);
    assert(tagged_mirror.spec_invert() == tagged);
    assert(tagged != mirror);
    assert(tagged_mirror != connection);
    assert(mirror != connection);
    let first = with_mark(staged, connection, render_info);
    lemma_mark_effects(staged, graph, connection, render_info);
    let second = with_mark(first, mirror, spec_invert_render(render_info));
    lemma_mark_effects(first, graph, mirror, spec_invert_render(render_info));
    assert(additions_mirrored(second)) by {
        reveal(additions_mirrored);
        assert forall|n: Uid, e: EdgeDescriptor<EV>| #[trigger]
            staged_adds(second, n, e) implies e.host == n && (staged_adds(
            second,
            e.target,
            e.spec_invert(),
        ) || marked(second, e.target)) by {
            lemma_invert_involution(e);
            if e == tagged_mirror {
                assert(staged_adds(first, host, tagged));
                assert(staged_adds(second, host, tagged));
            } else if e == tagged {
                assert(staged_adds(first, n, e));
                assert(staged_adds(second, target, tagged_mirror));
            } else {
                assert(staged_adds(first, n, e));
                assert(staged_adds(staged, n, e));
                if !marked(staged, e.target) {
                    assert(staged_adds(staged, e.target, e.spec_invert()));
                    if e.spec_invert() == connection {
                        assert(e == mirror);
                    }
                    if e.spec_invert() == mirror {
                        assert(e == connection);
                    }
                    assert(staged_adds(first, e.target, e.spec_invert()));
                    assert(staged_adds(second, e.target, e.spec_invert()));
                }
            }
        }
    }
    assert(keeps_marks(second, staged));
    assert(no_fewer_removals(second, staged)) by {
        assert forall|n: Uid, e: EdgeDescriptor<EV>| #[trigger] takes(staged, n, e) implies takes(
            second,
            n,
            e,
        ) by {
            assert(takes(first, n, e));
        }
    }
    assert(keeps_removals(second, staged));
    assert forall|n: Uid, e: EdgeDescriptor<EV>|
        #[trigger] takes(second, n, e) && !takes(staged, n, e) && graph_holds(graph, n, e)
            && !marked(second, n) implies marked(second, e.target) || takes(
        second,
        e.target,
        e.spec_invert(),
    ) by {
        reveal(additions_mirrored);
        assert(graph.node(e.target) is Some);
        lemma_graph_node_is_not_new(staged, graph, e.target);
        if takes(first, n, e) {
            // The removal of the connection from its host.
            assert(n == host && e == connection && !staged_adds(staged, host, connection));
            assert(lookup(first.new_nodes, target) is None);
            if staged_adds(first, target, mirror) {
                assert(staged_adds(staged, target, mirror));
                assert(staged_adds(staged, mirror.target, mirror.spec_invert()) || marked(
                    staged,
                    mirror.target,
                ));
            }
            assert(takes(second, target, mirror));
        } else {
            // The removal of the mirror from the target.
            assert(n == target && e == mirror && !staged_adds(first, target, mirror));
            if staged_adds(staged, host, connection) {
                assert(staged_adds(staged, target, mirror) || marked(staged, target));
                assert(staged_adds(first, target, mirror));
            }
            assert(takes(first, host, connection));
            assert(takes(second, host, connection));
        }
    }
    lemma_more_removals(staged, second, graph);
}

/// Assigning a connection keeps the balance and every removal, and touches
/// no mark or error.
pub proof fn lemma_assign_balanced<TV, EV, AV>(
    staged: BuildBlueprintView<TV, EV>,
    graph: GraphView<TV, EV, AV>,
    connection: EdgeDescriptor<EV>,
)
    requires
        balanced(staged, graph),
        graph.in_order(),
        graph.symmetric(),
    ensures
        balanced(staged.spec_assign(graph.nodes, connection), graph),
        staged.spec_assign(graph.nodes, connection).delete_nodes == staged.delete_nodes,
        staged.spec_assign(graph.nodes, connection).errors == staged.errors,
        no_fewer_removals(staged.spec_assign(graph.nodes, connection), staged),
        staged.spec_assign(graph.nodes, connection) == staged || staged.spec_assign(
            graph.nodes,
            connection,
        ) == with_both_marked(staged, connection, Some(EdgeDir::Emit)),
{
    let after = staged.spec_assign(graph.nodes, connection);
    let host = connection.host;
    let target = connection.target;
    let found = match graph.node(host) {
        Some(node) => node.spec_search_for_edge(rendering_pattern(connection)) is Some,
        None => false,
    };
    let held = found && !staged.spec_takes(connection.spec_with_render(Some(EdgeDir::Emit)));
    if found {
        let node = graph.node(host)->0;
        lemma_graph_node_is_not_new(staged, graph, host);
        lemma_held_leads_there(node, connection);
        let e = choose|e: EdgeDescriptor<EV>| #[trigger] node.holds(e) && e.target == target;
        assert(graph.node(host)->0.holds(e));
        assert(graph.node(target) is Some);
        lemma_graph_node_is_not_new(staged, graph, target);
    }
    if held {
        assert(after == staged);
    } else {
        lemma_mark_both_balanced(staged, graph, connection, Some(EdgeDir::Emit));
        assert(after == with_both_marked(staged, connection, Some(EdgeDir::Emit)));
    }
}

/// Releasing a node of the graph from some of the render edges that the
/// graph holds on it keeps the balance and every removal, and touches no
/// mark or error.
pub proof fn lemma_release_each_balanced<TV, EV, AV>(
    staged: BuildBlueprintView<TV, EV>,
    graph: GraphView<TV, EV, AV>,
    olds: Seq<EdgeDescriptor<EV>>,
    keep: EdgeDescriptor<EV>,
)
    requires
        balanced(staged, graph),
        graph.in_order(),
        graph.symmetric(),
        forall|e: EdgeDescriptor<EV>| #[trigger] olds.contains(e) ==> graph_holds(graph, e.host, e),
    ensures
        balanced(staged.spec_release_each(olds, keep), graph),
        staged.spec_release_each(olds, keep).delete_nodes == staged.delete_nodes,
        staged.spec_release_each(olds, keep).errors == staged.errors,
        no_fewer_removals(staged.spec_release_each(olds, keep), staged),
    decreases olds.len(),
{
    if olds.len() > 0 {
        let old = olds[0];
        assert(olds.contains(old));
        let first = if old == keep || staged.spec_takes(old) {
            staged
        } else {
            staged.spec_unmark(old)
        };
        if first != staged {
            assert(graph.node(old.target) is Some);
            lemma_graph_node_is_not_new(staged, graph, old.host);
            lemma_graph_node_is_not_new(staged, graph, old.target);
            lemma_mark_effects(staged, graph, old, None);
            lemma_mark_both_balanced(staged, graph, old, None);
            assert(first == with_both_marked(staged, old, None));
        }
        assert forall|e: EdgeDescriptor<EV>| #[trigger] olds.skip(1).contains(e) implies graph_holds(
            graph,
            e.host,
            e,
        ) by {
            let j = choose|j: int| 0 <= j < olds.skip(1).len() && olds.skip(1)[j] == e;
            assert(olds[j + 1] == e);
            assert(olds.contains(e));
        }
        lemma_release_each_balanced(first, graph, olds.skip(1), keep);
        let last = staged.spec_release_each(olds, keep);
        assert forall|id: Uid, e: EdgeDescriptor<EV>| #[trigger] takes(staged, id, e) implies takes(
            last,
            id,
            e,
        ) by {
            assert(takes(first, id, e));
        }
    }
}

/// Releasing the target of a connection from the render edges that the
/// graph holds on it keeps the balance and every removal, and touches no
/// mark or error.
pub proof fn lemma_release_balanced<TV, EV, AV>(
    staged: BuildBlueprintView<TV, EV>,
    graph: GraphView<TV, EV, AV>,
    connection: EdgeDescriptor<EV>,
)
    requires
        balanced(staged, graph),
        graph.in_order(),
        graph.symmetric(),
    ensures
        balanced(staged.spec_release(graph.nodes, connection), graph),
        staged.spec_release(graph.nodes, connection).delete_nodes == staged.delete_nodes,
        staged.spec_release(graph.nodes, connection).errors == staged.errors,
        no_fewer_removals(staged.spec_release(graph.nodes, connection), staged),
{
    match graph.node(connection.target) {
        None => {},
        Some(node) => match node.spec_search_for_edge(rendered_through()) {
            None => {},
            Some(olds) => {
                assert forall|e: EdgeDescriptor<EV>| #[trigger] olds.contains(e) implies graph_holds(
                    graph,
                    e.host,
                    e,
                ) by {
                    lemma_found_is_held(node, rendered_through(), e);
                    assert(graph_holds(graph, connection.target, e));
                }
                lemma_release_each_balanced(
                    staged,
                    graph,
                    olds,
                    connection.spec_invert().spec_with_render(Some(EdgeDir::Recv)),
                );
            },
        },
    }
}

/// Whether every node that is marked for deletion is a node of the graph
/// that is severed.
pub open spec fn all_severed<TV, EV, AV>(
    staged: BuildBlueprintView<TV, EV>,
    graph: GraphView<TV, EV, AV>,
) -> bool {
    forall|id: Uid| #[trigger] marked(staged, id) ==> severed_at(staged, graph, id)
}

/// Where every marked node is severed, it stays so where the marks are the
/// same and removals are kept.
pub proof fn lemma_all_stay_severed<TV, EV, AV>(
    before: BuildBlueprintView<TV, EV>,
    after: BuildBlueprintView<TV, EV>,
    graph: GraphView<TV, EV, AV>,
)
    requires
        all_severed(before, graph),
        after.delete_nodes == before.delete_nodes,
        keeps_removals(after, before),
    ensures
        all_severed(after, graph),
{
    assert forall|id: Uid| #[trigger] marked(after, id) implies severed_at(after, graph, id) by {
        assert(marked(before, id));
        lemma_stays_severed(before, after, graph, id);
    }
}

/// Carrying every marked deletion through what is staged adds an error or
/// keeps the balance and leaves every marked node severed.
pub proof fn lemma_delete_all_balanced<TV, EV, AV>(
    staged: BuildBlueprintView<TV, EV>,
    graph: GraphView<TV, EV, AV>,
)
    requires
        balanced(staged, graph),
        graph.in_order(),
        graph.symmetric(),
    ensures
        staged.spec_finalize_delete_nodes(graph.nodes).delete_nodes == staged.delete_nodes,
        staged.spec_finalize_delete_nodes(graph.nodes).errors.len() >= staged.errors.len(),
        staged.spec_finalize_delete_nodes(graph.nodes).errors.len() == staged.errors.len() ==> {
            &&& balanced(staged.spec_finalize_delete_nodes(graph.nodes), graph)
            &&& all_severed(staged.spec_finalize_delete_nodes(graph.nodes), graph)
            &&& keeps_removals(staged.spec_finalize_delete_nodes(graph.nodes), staged)
            &&& no_more_additions(staged.spec_finalize_delete_nodes(graph.nodes), staged)
        },
{
    lemma_delete_each_balanced(staged, graph, staged.delete_nodes, graph.nodes.len());
    let after = staged.spec_finalize_delete_nodes(graph.nodes);
    if after.errors.len() == staged.errors.len() {
        assert forall|id: Uid| #[trigger] marked(after, id) implies severed_at(after, graph, id) by {
            assert(staged.delete_nodes.contains(id));
        }
    }
}

/// More marks for deletion keep the balance.
pub proof fn lemma_more_marks<TV, EV, AV>(
    staged: BuildBlueprintView<TV, EV>,
    graph: GraphView<TV, EV, AV>,
    more: Seq<Uid>,
)
    requires
        balanced(staged, graph),
    ensures
        balanced(
            BuildBlueprintView { delete_nodes: union_seq(staged.delete_nodes, more), ..staged },
            graph,
        ),
{
    let after = BuildBlueprintView { delete_nodes: union_seq(staged.delete_nodes, more), ..staged };
    lemma_union_members(staged.delete_nodes, more);
    lemma_same_records_keyed(staged, after, graph);
    assert(keeps_marks(after, staged));
    assert forall|id: Uid, e: EdgeDescriptor<EV>| #[trigger]
        staged_adds(after, id, e) implies staged_adds(staged, id, e) by {}
    lemma_fewer_additions(staged, after);
    assert(keeps_removals(after, staged));
    lemma_more_removals(staged, after, graph);
}

/// The rounds of the search add an error, or keep the balance and leave
/// every marked node severed.
pub proof fn lemma_rounds_balanced<TV, EV, AV>(
    staged: BuildBlueprintView<TV, EV>,
    search: RenderSearchView<TV, EV>,
    graph: GraphView<TV, EV, AV>,
    patterns: Seq<EdgeFinderView<EV>>,
    fuel: nat,
)
    requires
        balanced(staged, graph),
        all_severed(staged, graph),
        graph.in_order(),
        graph.symmetric(),
    ensures
        staged.spec_render_rounds(search, graph.nodes, patterns, fuel).errors.len()
            >= staged.errors.len(),
        staged.spec_render_rounds(search, graph.nodes, patterns, fuel).errors.len()
            == staged.errors.len() ==> {
            &&& balanced(staged.spec_render_rounds(search, graph.nodes, patterns, fuel), graph)
            &&& all_severed(staged.spec_render_rounds(search, graph.nodes, patterns, fuel), graph)
        },
    decreases fuel,
{
    if search.remaining.len() == 0 {
    } else if fuel == 0 {
    } else {
        let offered = search.spec_expanded(patterns);
        if offered.candidates.len() == 0 {
            match spec_first_new(staged.new_nodes, offered.remaining) {
                Some(id) => {},
                None => {
                    let more = BuildBlueprintView {
                        delete_nodes: union_seq(staged.delete_nodes, offered.remaining),
                        ..staged
                    };
                    lemma_more_marks(staged, graph, offered.remaining);
                    lemma_delete_all_balanced(more, graph);
                },
            }
        } else {
            let taken = offered.candidates[crate::blueprint::render::spec_best(offered.candidates)];
            let left = RenderSearchView { candidates: without(offered.candidates, taken), ..offered };
            let settled = staged.spec_settle(left, graph.nodes, taken.1);
            assert(balanced(settled, graph) && all_severed(settled, graph) && settled.errors
                == staged.errors) by {
                if settled != staged {
                    let assigned = staged.spec_assign(graph.nodes, taken.1);
                    assert(settled == assigned.spec_release(graph.nodes, taken.1));
                    lemma_assign_balanced(staged, graph, taken.1);
                    lemma_release_balanced(assigned, graph, taken.1);
                    assert(keeps_removals(settled, staged)) by {
                        assert forall|id: Uid, e: EdgeDescriptor<EV>| #[trigger]
                            takes(staged, id, e) implies takes(settled, id, e) || marked(
                            settled,
                            id,
                        ) by {
                            assert(takes(assigned, id, e));
                        }
                    }
                    lemma_all_stay_severed(staged, settled, graph);
                }
            }
            lemma_rounds_balanced(
                settled,
                spec_settled(left, taken.1),
                graph,
                patterns,
                (fuel - 1) as nat,
            );
        }
    }
}

/// The choice of render edges adds an error, or keeps the balance and
/// leaves every marked node severed.
pub proof fn lemma_choice_balanced<TV, EV, AV>(
    staged: BuildBlueprintView<TV, EV>,
    graph: GraphView<TV, EV, AV>,
    patterns: Seq<EdgeFinderView<EV>>,
    entry_point: Option<Uid>,
)
    requires
        balanced(staged, graph),
        all_severed(staged, graph),
        graph.in_order(),
        graph.symmetric(),
    ensures
        staged.spec_set_render_edges(graph.nodes, patterns, entry_point).errors.len()
            >= staged.errors.len(),
        staged.spec_set_render_edges(graph.nodes, patterns, entry_point).errors.len()
            == staged.errors.len() ==> {
            &&& balanced(staged.spec_set_render_edges(graph.nodes, patterns, entry_point), graph)
            &&& all_severed(
                staged.spec_set_render_edges(graph.nodes, patterns, entry_point),
                graph,
            )
        },
{
    let begin = RenderSearchView::begin(spec_extend(staged.new_nodes, staged.displaced_nodes));
    match entry_point {
        Some(temp) => {
            if staged.temp_id_map.dom().contains(temp) {
                let root = staged.temp_id_map[temp];
                match lookup(begin.uncertain, root) {
                    None => {},
                    Some(node) => {
                        if node.spec_render_edge() is None {
                            lemma_rounds_balanced(
                                staged,
                                begin.spec_connect(root, node),
                                graph,
                                patterns,
                                usize::MAX as nat,
                            );
                        }
                    },
                }
            }
        },
        None => {
            lemma_rounds_balanced(
                staged,
                begin.spec_offer_all(patterns, staged.entry_edges).spec_offer_all(
                    patterns,
                    staged.displaced_entry_edges,
                ),
                graph,
                patterns,
                usize::MAX as nat,
            );
        },
    }
}

/// A transaction in which every record is in its place and every staged
/// edge has its mirror staged is in balance.
pub proof fn lemma_pairs_are_balanced<TV, EV, AV>(
    staged: BuildBlueprintView<TV, EV>,
    graph: GraphView<TV, EV, AV>,
)
    requires
        in_pairs(staged, graph),
    ensures
        balanced(staged, graph),
{
    reveal(records_in_place);
    reveal(mirrored_staging);
    reveal(records_keyed);
    reveal(additions_mirrored);
    reveal(removals_mirrored);
    assert forall|id: Uid| #[trigger] lookup(staged.update_nodes, id) is Some implies change_keyed(
        staged,
        id,
        lookup(staged.update_nodes, id)->0,
    ) by {
        assert(update_in_place(graph, id, lookup(staged.update_nodes, id)->0));
        if lookup(staged.new_nodes, id) is Some {
            assert(new_in_place(graph, id, lookup(staged.new_nodes, id)->0));
        }
    }
    assert forall|id: Uid, e: EdgeDescriptor<EV>| !#[trigger] takes(staged, id, e) by {
        if lookup(staged.update_nodes, id) is Some {
            assert(update_in_place(graph, id, lookup(staged.update_nodes, id)->0));
        }
    }
}

/// Carrying deletions and removals through a transaction in pairs adds an
/// error, or leaves it in balance with every marked node severed.
pub proof fn lemma_cascade_balanced<TV, EV, AV>(
    staged: BuildBlueprintView<TV, EV>,
    graph: GraphView<TV, EV, AV>,
)
    requires
        paired(staged, graph),
        aliases_staged(staged, staged.temp_edges),
        graph.in_order(),
        graph.symmetric(),
    ensures
        staged.spec_cascaded(graph.nodes).errors.len() >= staged.errors.len(),
        staged.spec_cascaded(graph.nodes).errors.len() == staged.errors.len() ==> {
            &&& balanced(staged.spec_cascaded(graph.nodes), graph)
            &&& all_severed(staged.spec_cascaded(graph.nodes), graph)
        },
{
    let resolved = staged.spec_update_temp_ids();
    lemma_resolve_pairs(staged, graph, staged.temp_edges);
    let deleted = resolved.spec_finalize_delete_nodes(graph.nodes);
    crate::laws::cascade::lemma_delete_each_carries(
        resolved,
        graph.nodes,
        resolved.delete_nodes,
        graph.nodes.len(),
    );
    let removed = deleted.spec_finalize_removed_edges(graph.nodes);
    let found = removed.spec_find_potential_entries(graph.nodes);
    let noted = found.spec_hold_back_entries();
    lemma_note_all_frame(removed, graph.nodes, removed.displaced_nodes);
    assert(same_records(noted, removed));
    if resolved.errors.len() == staged.errors.len() {
        lemma_pairs_are_balanced(resolved, graph);
        lemma_delete_all_balanced(resolved, graph);
        if deleted.errors.len() == resolved.errors.len() {
            lemma_removals_balanced(deleted, graph, deleted.remove_edge_finders, graph.nodes.len());
            assert(keeps_removals(removed, deleted));
            lemma_all_stay_severed(deleted, removed, graph);
            lemma_same_records_balanced(removed, noted, graph);
            assert(keeps_removals(noted, removed));
            lemma_all_stay_severed(removed, noted, graph);
        } else {
            crate::laws::cascade::lemma_cascading_carries(staged, graph.nodes);
            lemma_removals_errors(deleted, graph.nodes, deleted.remove_edge_finders, graph.nodes.len());
        }
    } else {
        crate::laws::cascade::lemma_cascading_carries(staged, graph.nodes);
        lemma_removals_errors(deleted, graph.nodes, deleted.remove_edge_finders, graph.nodes.len());
    }
}

/// Settling queued removals against the graph loses no error.
pub proof fn lemma_removals_errors<TV, EV, AV>(
    staged: BuildBlueprintView<TV, EV>,
    graph: Seq<(Uid, NodeView<TV, EV, AV>)>,
    removals: Seq<(Uid, EdgeFinderView<EV>)>,
    fuel: nat,
)
    ensures
        staged.spec_resolve_removals(graph, removals, fuel).errors.len() >= staged.errors.len(),
    decreases removals.len(),
{
    if removals.len() > 0 {
        let first = staged.spec_resolve_removal(graph, removals[0], fuel);
        assert(first.errors.len() >= staged.errors.len()) by {
            match lookup(graph, removals[0].0) {
                None => {},
                Some(node) => match node.spec_search_for_edge(removals[0].1) {
                    None => {},
                    Some(found) => {
                        lemma_cut_each_errors(staged, graph, found, fuel);
                    },
                },
            }
        }
        lemma_removals_errors(first, graph, removals.skip(1), fuel);
    }
}

/// Cutting edges touches no error.
pub proof fn lemma_cut_each_errors<TV, EV, AV>(
    staged: BuildBlueprintView<TV, EV>,
    graph: Seq<(Uid, NodeView<TV, EV, AV>)>,
    edges: Seq<EdgeDescriptor<EV>>,
    fuel: nat,
)
    ensures
        staged.spec_cut_each(graph, edges, fuel).errors == staged.errors,
    decreases edges.len(),
{
    if edges.len() > 0 {
        let mirror = edges[0].spec_invert();
        let a = staged.spec_catalog(graph, mirror, fuel);
        lemma_catalog_frame(staged, graph, mirror, fuel);
        let b = a.spec_remove_edge(mirror);
        lemma_catalog_frame(b, graph, edges[0], fuel);
        lemma_cut_each_errors(staged.spec_cut(graph, edges[0], fuel), graph, edges.skip(1), fuel);
    }
}

/// Whether the sealed transaction adds no edge that leads to a node which
/// it deletes.
pub open spec fn adds_to_no_deleted_node<TV, EV>(sealed: FinalizedBlueprintView<TV, EV>) -> bool {
    forall|id: Uid, e: EdgeDescriptor<EV>| #[trigger] sealed.adds(id, e) ==> !sealed.deletes(e.target)
}

/// A transaction that is sealed from one in balance in which every marked
/// node is severed, and that can be applied, is plain on the graph; it
/// deletes the marked nodes, adds what is staged for addition to nodes
/// that are not marked, and removes what is staged for removal and not for
/// addition.
pub proof fn lemma_sealed_corresponds<TV, EV, AV>(
    chosen: BuildBlueprintView<TV, EV>,
    graph: GraphView<TV, EV, AV>,
    sealed: FinalizedBlueprintView<TV, EV>,
    action: ActionData<AV>,
)
    requires
        balanced(chosen, graph),
        all_severed(chosen, graph),
        graph.in_order(),
        sealed.new_nodes == chosen.new_nodes,
        sealed.update_nodes == sealed_entries(graph.nodes, chosen.update_nodes),
        sealed.delete_nodes == spec_snapshot_each(
            Seq::<(Uid, DeleteNodeView<TV, EV>)>::empty(),
            graph.nodes,
            chosen.delete_nodes,
        ),
        graph.spec_apply(sealed, action) is Ok,
    ensures
        sealed.plain_on(graph),
        forall|id: Uid| #[trigger] sealed.deletes(id) <==> marked(chosen, id),
        forall|id: Uid, e: EdgeDescriptor<EV>| #[trigger]
            sealed.adds(id, e) <==> !marked(chosen, id) && staged_adds(chosen, id, e),
        forall|id: Uid, e: EdgeDescriptor<EV>| #[trigger]
            sealed.removes(id, e) <==> marked(chosen, id) || (takes(chosen, id, e) && !(lookup(
                chosen.update_nodes,
                id,
            ) is Some && items_of(lookup(chosen.update_nodes, id)->0.add_edges).contains(e))),
{
    reveal(records_keyed);
    let fresh = new_ids(sealed.new_nodes);
    let changed = update_ids(sealed.update_nodes);
    assert forall|i: int| 0 <= i < sealed.new_nodes.len() implies (#[trigger] sealed.new_nodes[i]).0
        == sealed.new_nodes[i].1.id && graph.node(sealed.new_nodes[i].1.id) is None by {
        lemma_lookup_entry(chosen.new_nodes, i);
        assert(new_in_place(graph, chosen.new_nodes[i].0, chosen.new_nodes[i].1));
    }
    assert(fresh =~= keys_of(chosen.new_nodes)) by {
        assert forall|i: int| 0 <= i < fresh.len() implies fresh[i] == keys_of(
            chosen.new_nodes,
        )[i] by {
            assert(sealed.new_nodes[i].0 == sealed.new_nodes[i].1.id);
        }
    }
    assert forall|i: int| 0 <= i < sealed.update_nodes.len() implies (
    #[trigger] sealed.update_nodes[i]).1.id == chosen.update_nodes[i].0
        && sealed.update_nodes[i].1.add_edges == chosen.update_nodes[i].1.add_edges
        && sealed.update_nodes[i].1.remove_edges == chosen.update_nodes[i].1.remove_edges
        && lookup(chosen.new_nodes, chosen.update_nodes[i].0) is None by {
        lemma_lookup_entry(chosen.update_nodes, i);
        assert(change_keyed(chosen, chosen.update_nodes[i].0, chosen.update_nodes[i].1));
    }
    assert(changed =~= keys_of(chosen.update_nodes)) by {
        assert forall|i: int| 0 <= i < changed.len() implies changed[i] == keys_of(
            chosen.update_nodes,
        )[i] by {
            assert(sealed.update_nodes[i].1.id == chosen.update_nodes[i].0);
        }
    }
    // A change that can be applied is to a node of the graph.
    let created = graph.spec_add_nodes(sealed.new_nodes, action);
    lemma_add_nodes(graph, sealed.new_nodes, action);
    let updated = created.spec_update_nodes(sealed.update_nodes, action)->Ok_0;
    lemma_update_nodes(created, sealed.update_nodes, action, updated);
    assert forall|i: int| 0 <= i < sealed.update_nodes.len() implies graph.node(
        (#[trigger] sealed.update_nodes[i]).1.id,
    ) is Some by {
        let id = sealed.update_nodes[i].1.id;
        lemma_keys_are_found(chosen.new_nodes, id);
        assert(!fresh.contains(id));
        assert(created.node(id) == graph.node(id));
    }
    assert(sealed.plain_on(graph));
    // What the sealed transaction creates, changes and deletes is what is
    // staged.
    assert forall|id: Uid| sealed.created(id) == lookup(chosen.new_nodes, id) by {
        lemma_keys_are_found(chosen.new_nodes, id);
        if fresh.contains(id) {
            let i = choose|i: int| 0 <= i < fresh.len() && fresh[i] == id;
            lemma_lookup_entry(chosen.new_nodes, i);
            assert(sealed.new_nodes[i].0 == sealed.new_nodes[i].1.id);
        }
    }
    assert forall|id: Uid|
        (sealed.change(id) is Some <==> lookup(chosen.update_nodes, id) is Some) && (sealed.change(
            id,
        ) is Some ==> sealed.change(id)->0.add_edges == lookup(
            chosen.update_nodes,
            id,
        )->0.add_edges && sealed.change(id)->0.remove_edges == lookup(
            chosen.update_nodes,
            id,
        )->0.remove_edges) by {
        lemma_keys_are_found(chosen.update_nodes, id);
        if changed.contains(id) {
            let i = choose|i: int| 0 <= i < changed.len() && changed[i] == id;
            lemma_lookup_entry(chosen.update_nodes, i);
            assert(sealed.update_nodes[i].1.id == chosen.update_nodes[i].0);
        }
    }
    assert forall|id: Uid| sealed.deletes(id) <==> marked(chosen, id) by {
        lemma_keys_are_found(sealed.delete_nodes, id);
        crate::laws::cascade::lemma_snapshots(
            Seq::<(Uid, DeleteNodeView<TV, EV>)>::empty(),
            graph.nodes,
            chosen.delete_nodes,
            id,
        );
        if marked(chosen, id) {
            assert(severed_at(chosen, graph, id));
        }
        assert(lookup(Seq::<(Uid, DeleteNodeView<TV, EV>)>::empty(), id) is None);
    }
    assert forall|id: Uid, e: EdgeDescriptor<EV>| #[trigger]
        sealed.adds(id, e) <==> !marked(chosen, id) && staged_adds(chosen, id, e) by {
        assert(sealed.created(id) == lookup(chosen.new_nodes, id));
        assert(sealed.change(id) is Some <==> lookup(chosen.update_nodes, id) is Some);
        assert(sealed.deletes(id) <==> marked(chosen, id));
    }
    assert forall|id: Uid, e: EdgeDescriptor<EV>| #[trigger]
        sealed.removes(id, e) <==> marked(chosen, id) || (takes(chosen, id, e) && !(lookup(
            chosen.update_nodes,
            id,
        ) is Some && items_of(lookup(chosen.update_nodes, id)->0.add_edges).contains(e))) by {
        assert(sealed.change(id) is Some <==> lookup(chosen.update_nodes, id) is Some);
        assert(sealed.deletes(id) <==> marked(chosen, id));
    }
}

/// A transaction that is sealed from one in balance in which every marked
/// node is severed, that adds no edge to a node which it deletes, and that
/// can be applied, is plain on the graph and treats both sides of every
/// edge alike.
pub proof fn lemma_sealed_is_balanced<TV, EV, AV>(
    chosen: BuildBlueprintView<TV, EV>,
    graph: GraphView<TV, EV, AV>,
    sealed: FinalizedBlueprintView<TV, EV>,
    action: ActionData<AV>,
)
    requires
        balanced(chosen, graph),
        all_severed(chosen, graph),
        graph.in_order(),
        graph.symmetric(),
        sealed.new_nodes == chosen.new_nodes,
        sealed.update_nodes == sealed_entries(graph.nodes, chosen.update_nodes),
        sealed.delete_nodes == spec_snapshot_each(
            Seq::<(Uid, DeleteNodeView<TV, EV>)>::empty(),
            graph.nodes,
            chosen.delete_nodes,
        ),
        adds_to_no_deleted_node(sealed),
        graph.spec_apply(sealed, action) is Ok,
    ensures
        sealed.plain_on(graph),
        sealed.mirrored_on(graph),
{
    lemma_sealed_corresponds(chosen, graph, sealed, action);
    reveal(records_keyed);
    assert forall|id: Uid, e: EdgeDescriptor<EV>| #[trigger] sealed.adds(id, e) implies e.host
        == id && sealed.adds(e.target, e.spec_invert()) by {
        reveal(additions_mirrored);
        assert(staged_adds(chosen, id, e));
        assert(!sealed.deletes(e.target));
        assert(sealed.deletes(e.target) <==> marked(chosen, e.target));
        assert(staged_adds(chosen, e.target, e.spec_invert()));
    }
    assert forall|id: Uid, e: EdgeDescriptor<EV>|
        (graph.node(id) is Some && graph.node(id)->0.holds(e) && #[trigger] sealed.removes(
            id,
            e,
        )) implies sealed.removes(e.target, e.spec_invert()) by {
        reveal(additions_mirrored);
        reveal(removals_mirrored);
        let mirror = e.spec_invert();
        lemma_invert_involution(e);
        assert(graph_holds(graph, id, e));
        assert(e.host == id && graph.node(e.target) is Some);
        lemma_graph_node_is_not_new(chosen, graph, id);
        if !marked(chosen, e.target) {
            if marked(chosen, id) {
                assert(severed_at(chosen, graph, id));
                assert(cut_off(chosen, e));
            }
            assert(takes(chosen, e.target, mirror));
            if staged_adds(chosen, e.target, mirror) {
                assert(sealed.adds(e.target, mirror));
                assert(!sealed.deletes(mirror.target));
                assert(sealed.deletes(id) <==> marked(chosen, id));
                assert(staged_adds(chosen, mirror.target, mirror.spec_invert()) || marked(
                    chosen,
                    mirror.target,
                ));
                assert(staged_adds(chosen, id, e));
            }
        }
    }
}

/// A transaction staged in pairs, finalized with success, which adds no
/// edge that leads to a node which it deletes, and applied to a graph in
/// order in which every edge has its mirror, leaves a graph in order in
/// which every edge has its mirror.
pub proof fn law_finalizing_keeps_symmetry<TV, EV, AV>(
    staged: BuildBlueprintView<TV, EV>,
    graph: GraphView<TV, EV, AV>,
    specifiers: Option<Seq<AllowedRenderEdgeSpecifier<EV>>>,
    entry_point: Option<Uid>,
    sealed: FinalizedBlueprintView<TV, EV>,
    action: ActionData<AV>,
    applied: GraphView<TV, EV, AV>,
)
    requires
        graph.in_order(),
        graph.symmetric(),
        paired(staged, graph),
        aliases_staged(staged, staged.temp_edges),
        staged.spec_finalize(graph.nodes, specifiers, entry_point) == Ok::<
            FinalizedBlueprintView<TV, EV>,
            Seq<GraphErrorView>,
        >(sealed),
        adds_to_no_deleted_node(sealed),
        graph.spec_apply(sealed, action) == Ok::<GraphView<TV, EV, AV>, GraphErrorView>(applied),
    ensures
        applied.in_order(),
        applied.symmetric(),
{
    let patterns = crate::blueprint::render::spec_render_patterns(specifiers);
    let cascaded = staged.spec_cascaded(graph.nodes);
    let chosen = cascaded.spec_set_render_edges(graph.nodes, patterns, entry_point);
    let start = Sealed::<TV, EV> { updates: Seq::empty(), errors: chosen.errors };
    crate::laws::render::lemma_seal_grows(start, graph.nodes, chosen.update_nodes);
    assert(chosen.errors.len() == 0);
    crate::laws::render::law_no_error_is_lost(cascaded, graph.nodes, patterns, entry_point);
    lemma_cascade_balanced(staged, graph);
    lemma_choice_balanced(cascaded, graph, patterns, entry_point);
    assert(unique_keys(chosen.update_nodes)) by {
        reveal(records_keyed);
    }
    lemma_sealed_in_order(start, graph.nodes, chosen.update_nodes);
    assert(Seq::<(Uid, FinalizedUpdateNodeView<TV, EV>)>::empty() + sealed_entries(
        graph.nodes,
        chosen.update_nodes,
    ) =~= sealed_entries(graph.nodes, chosen.update_nodes));
    lemma_sealed_is_balanced(chosen, graph, sealed, action);
    law_apply_keeps_symmetry(graph, sealed, action, applied);
}

/// Marking nodes for deletion and queueing removals of edges keep a
/// transaction paired, and its edges to aliases staged: both are a matter
/// of the records, the ways in and the aliases alone.
pub proof fn law_marking_keeps_pairing<TV, EV, AV>(
    staged: BuildBlueprintView<TV, EV>,
    graph: GraphView<TV, EV, AV>,
    marks: Seq<Uid>,
    removals: Seq<(Uid, EdgeFinderView<EV>)>,
)
    requires
        paired(staged, graph),
    ensures
        paired(
            BuildBlueprintView { delete_nodes: marks, remove_edge_finders: removals, ..staged },
            graph,
        ),
        aliases_staged(staged, staged.temp_edges) ==> aliases_staged(
            BuildBlueprintView { delete_nodes: marks, remove_edge_finders: removals, ..staged },
            staged.temp_edges,
        ),
{
    let after = BuildBlueprintView { delete_nodes: marks, remove_edge_finders: removals, ..staged };
    reveal(records_in_place);
    reveal(mirrored_staging);
    reveal(crate::laws::pairing::entries_staged);
    reveal(aliases_staged);
    assert forall|id: Uid, e: EdgeDescriptor<EV>| #[trigger]
        staged_adds(after, id, e) implies e.host == id && staged_adds(
        after,
        e.target,
        e.spec_invert(),
    ) by {
        assert(staged_adds(staged, id, e));
    }
    assert forall|e: EdgeDescriptor<EV>| #[trigger]
        after.entry_edges.contains(e) implies crate::laws::pairing::stages(after, e) by {
        assert(crate::laws::pairing::stages(staged, e));
    }
    if aliases_staged(staged, staged.temp_edges) {
        assert forall|t: (EdgeDescriptor<EV>, bool)| #[trigger]
            staged.temp_edges.contains(t) implies crate::laws::pairing::alias_staged(after, t) by {
            assert(crate::laws::pairing::alias_staged(staged, t));
        }
    }
}

} // verus!
