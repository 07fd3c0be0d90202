//! Staged edges in pairs: how a transaction that only creates and changes
//! nodes comes to treat both sides of every edge alike.

use vstd::prelude::*;

use crate::blueprint::build_blueprint::BuildBlueprintView;
use crate::blueprint::new_node::{spec_find_more, spec_retag, NewNodeView};
use crate::blueprint::render::{rendering_pattern, spec_settled, RenderSearchView};
use crate::blueprint::update_node::{items_of, UpdateNodeView};
use crate::collections::seq_facts::{
    lemma_insert_keeps_distinct, lemma_keys_are_found, lemma_lookup_put_other,
    lemma_lookup_put_same, lemma_put_keeps_unique, lemma_skip_members, lemma_without_members,
    unique_keys,
};
use crate::laws::render::lemma_first_new_found;
use crate::collections::seq_model::{insert_unique, lemma_insert_members, lookup, put, without};
use crate::common::edge_descriptor::lemma_invert_involution;
use crate::common::{EdgeDescriptor, EdgeDir, EdgeFinderView, Uid};
use crate::graph::reactive_node::read_reactive_node::NodeView;
use crate::graph::reactive_node::utils::spec_search_map;
use crate::graph::view_graph::GraphView;
use crate::laws::edges::lemma_listed_is_held;

verus! {

/// Whether `edge` is staged for addition to node `id`.
pub open spec fn staged_adds<TV, EV>(
    staged: BuildBlueprintView<TV, EV>,
    id: Uid,
    edge: EdgeDescriptor<EV>,
) -> bool {
    ||| lookup(staged.new_nodes, id) is Some && lookup(staged.new_nodes, id)->0.add_edges.contains(
        edge,
    )
    ||| lookup(staged.update_nodes, id) is Some && items_of(
        lookup(staged.update_nodes, id)->0.add_edges,
    ).contains(edge)
}

/// Whether the record of a new node is in its place: under its own
/// identifier, for a node that the graph does not hold, and with each edge
/// once.
pub open spec fn new_in_place<TV, EV, AV>(
    graph: GraphView<TV, EV, AV>,
    id: Uid,
    record: NewNodeView<TV, EV>,
) -> bool {
    record.id == id && graph.node(id) is None && record.add_edges.no_duplicates()
}

/// Whether a change is in its place: under the identifier of the node that
/// it changes, for a node that the graph holds, with each edge once, and
/// without removals.
pub open spec fn update_in_place<TV, EV, AV>(
    graph: GraphView<TV, EV, AV>,
    id: Uid,
    record: UpdateNodeView<TV, EV>,
) -> bool {
    record.id == id && graph.node(id) is Some && items_of(record.add_edges).no_duplicates()
        && record.remove_edges is None
}

/// Whether every staged record is in its place.
#[verifier::opaque]
pub open spec fn records_in_place<TV, EV, AV>(
    staged: BuildBlueprintView<TV, EV>,
    graph: GraphView<TV, EV, AV>,
) -> bool {
    &&& unique_keys(staged.new_nodes)
    &&& unique_keys(staged.update_nodes)
    &&& forall|id: Uid| #[trigger]
        lookup(staged.new_nodes, id) is Some ==> new_in_place(
            graph,
            id,
            lookup(staged.new_nodes, id)->0,
        )
    &&& forall|id: Uid| #[trigger]
        lookup(staged.update_nodes, id) is Some ==> update_in_place(
            graph,
            id,
            lookup(staged.update_nodes, id)->0,
        )
}

/// Whether every staged edge is staged on its host, and its mirror on the
/// node at its other end.
#[verifier::opaque]
pub open spec fn mirrored_staging<TV, EV>(staged: BuildBlueprintView<TV, EV>) -> bool {
    forall|id: Uid, e: EdgeDescriptor<EV>| #[trigger]
        staged_adds(staged, id, e) ==> e.host == id && staged_adds(
            staged,
            e.target,
            e.spec_invert(),
        )
}

/// Whether `edge` is staged for addition to its host as a change to a node
/// of the graph.
pub open spec fn stages<TV, EV>(staged: BuildBlueprintView<TV, EV>, edge: EdgeDescriptor<EV>) -> bool {
    lookup(staged.update_nodes, edge.host) is Some && items_of(
        lookup(staged.update_nodes, edge.host)->0.add_edges,
    ).contains(edge)
}

/// Whether every way in is staged for addition to its host.
#[verifier::opaque]
pub open spec fn entries_staged<TV, EV>(staged: BuildBlueprintView<TV, EV>) -> bool {
    forall|e: EdgeDescriptor<EV>| #[trigger] staged.entry_edges.contains(e) ==> stages(staged, e)
}

/// Whether every record is in its place and every staged edge has its
/// mirror staged.
pub open spec fn in_pairs<TV, EV, AV>(
    staged: BuildBlueprintView<TV, EV>,
    graph: GraphView<TV, EV, AV>,
) -> bool {
    records_in_place(staged, graph) && mirrored_staging(staged)
}

/// Whether what is staged comes in pairs on `graph`, and every way in is
/// staged on its host.
pub open spec fn paired<TV, EV, AV>(
    staged: BuildBlueprintView<TV, EV>,
    graph: GraphView<TV, EV, AV>,
) -> bool {
    in_pairs(staged, graph) && entries_staged(staged)
}

/// After an edge of a list without duplicates is marked, the list holds
/// what it held but for that edge, and the marked edge; and it is still
/// without duplicates.
pub proof fn lemma_retag_members<EV>(
    edges: Seq<EdgeDescriptor<EV>>,
    x: EdgeDescriptor<EV>,
    render_info: Option<EdgeDir>,
    e: EdgeDescriptor<EV>,
)
    requires
        edges.no_duplicates(),
    ensures
        spec_retag(edges, x, render_info).no_duplicates(),
        spec_retag(edges, x, render_info).contains(e) <==> (edges.contains(e) && e != x) || e
            == x.spec_with_render(render_info),
{
    lemma_without_members(edges, x, e);
    lemma_insert_keeps_distinct(without(edges, x), x.spec_with_render(render_info));
    lemma_insert_members(without(edges, x), x.spec_with_render(render_info), e);
}

/// What a search adds to what was found is a matching edge of the list.
proof fn lemma_find_more_sound<EV>(
    init: Seq<EdgeDescriptor<EV>>,
    edges: Seq<EdgeDescriptor<EV>>,
    finder: EdgeFinderView<EV>,
    e: EdgeDescriptor<EV>,
)
    ensures
        spec_find_more(init, edges, finder).contains(e) ==> init.contains(e) || (edges.contains(e)
            && finder.spec_matches(e)),
    decreases edges.len(),
{
    if edges.len() > 0 {
        lemma_find_more_sound(init, edges.drop_last(), finder, e);
        let found = spec_find_more(init, edges.drop_last(), finder);
        lemma_insert_members(found, edges.last(), e);
        assert(edges[edges.len() - 1] == edges.last());
        if edges.drop_last().contains(e) {
            let j = choose|j: int| 0 <= j < edges.len() - 1 && edges.drop_last()[j] == e;
            assert(edges[j] == e);
        }
    }
}

/// Whether some list of `map` holds `e`.
pub open spec fn listed<EV>(map: Seq<(EV, Seq<EdgeDescriptor<EV>>)>, e: EdgeDescriptor<EV>) -> bool {
    exists|i: int| 0 <= i < map.len() && (#[trigger] map[i]).1.contains(e)
}

/// What a search through the lists of a map adds to what was found is a
/// matching edge of one of the lists.
pub proof fn lemma_search_map_sound<EV>(
    found: Seq<EdgeDescriptor<EV>>,
    map: Seq<(EV, Seq<EdgeDescriptor<EV>>)>,
    finder: EdgeFinderView<EV>,
    e: EdgeDescriptor<EV>,
)
    ensures
        spec_search_map(found, map, finder).contains(e) ==> found.contains(e) || (listed(map, e)
            && finder.spec_matches(e)),
    decreases map.len(),
{
    if map.len() > 0 {
        let next = spec_find_more(found, map[0].1, finder);
        lemma_find_more_sound(found, map[0].1, finder, e);
        lemma_search_map_sound(next, map.skip(1), finder, e);
        if listed(map.skip(1), e) {
            let i = choose|i: int| 0 <= i < map.skip(1).len() && (#[trigger] map.skip(1)[i]).1.contains(e);
            assert(map[i + 1].1.contains(e));
        }
        if map[0].1.contains(e) {
            assert(listed(map, e));
        }
    }
}

/// Where a node in order is found to hold the edge of `connection` as a
/// render edge, it holds an edge to the target of `connection`.
pub proof fn lemma_held_leads_there<TV, EV, AV>(
    node: NodeView<TV, EV, AV>,
    connection: EdgeDescriptor<EV>,
)
    requires
        node.in_order(),
        node.spec_search_for_edge(rendering_pattern(connection)) is Some,
    ensures
        exists|e: EdgeDescriptor<EV>| #[trigger] node.holds(e) && e.target == connection.target,
{
    let finder = rendering_pattern(connection);
    let found = node.spec_search_for_edge(finder)->0;
    assert(found.len() > 0);
    let e = found[0];
    assert(found.contains(e));
    let incoming = node.spec_found_incoming(finder);
    lemma_search_map_sound(Seq::empty(), node.incoming_edges, finder, e);
    lemma_search_map_sound(incoming, node.outgoing_edges, finder, e);
    assert(!Seq::<EdgeDescriptor<EV>>::empty().contains(e));
    assert(finder.spec_matches(e));
    lemma_listed_is_held(node.incoming_edges, EdgeDir::Recv, e);
    lemma_listed_is_held(node.outgoing_edges, EdgeDir::Emit, e);
    assert(node.holds(e));
    assert(set![connection.target].contains(e.target));
}

/// Whether `edge` is staged for addition to node `id` once `connection`
/// is assigned: the edges that were staged, but with `connection` marked on
/// its host as rendering its target, and its mirror marked on its target as
/// rendering that node.
pub open spec fn assigned_adds<TV, EV>(
    staged: BuildBlueprintView<TV, EV>,
    connection: EdgeDescriptor<EV>,
    id: Uid,
    edge: EdgeDescriptor<EV>,
) -> bool {
    let marked = connection.spec_with_render(Some(EdgeDir::Emit));
    let mirror = connection.spec_invert();
    let marked_mirror = mirror.spec_with_render(Some(EdgeDir::Recv));
    let on_host = (staged_adds(staged, id, edge) && edge != connection) || edge == marked;
    if id == connection.target && id == connection.host {
        (on_host && edge != mirror) || edge == marked_mirror
    } else if id == connection.target {
        (staged_adds(staged, id, edge) && edge != mirror) || edge == marked_mirror
    } else if id == connection.host {
        on_host
    } else {
        staged_adds(staged, id, edge)
    }
}

/// Whether the host of `edge` is a new node, or a node of the graph for
/// which `edge` is staged for addition.
pub open spec fn hosted<TV, EV>(staged: BuildBlueprintView<TV, EV>, edge: EdgeDescriptor<EV>) -> bool {
    lookup(staged.new_nodes, edge.host) is Some || stages(staged, edge)
}

/// Whether `connection` can be assigned in a transaction that only creates
/// and changes nodes: its target is a new node, and it is hosted.
pub open spec fn assignable<TV, EV>(
    staged: BuildBlueprintView<TV, EV>,
    connection: EdgeDescriptor<EV>,
) -> bool {
    lookup(staged.new_nodes, connection.target) is Some && hosted(staged, connection)
}

/// Assigning a connection in a transaction in pairs keeps every record in
/// its place, stages what `assigned_adds` says, and leaves every other
/// edge hosted that was.
pub proof fn lemma_assign_stages<TV, EV, AV>(
    staged: BuildBlueprintView<TV, EV>,
    graph: GraphView<TV, EV, AV>,
    connection: EdgeDescriptor<EV>,
)
    requires
        in_pairs(staged, graph),
        graph.in_order(),
        graph.symmetric(),
        assignable(staged, connection),
    ensures
        records_in_place(staged.spec_assign(graph.nodes, connection), graph),
        forall|id: Uid, e: EdgeDescriptor<EV>| #[trigger]
            staged_adds(staged.spec_assign(graph.nodes, connection), id, e) <==> assigned_adds(
                staged,
                connection,
                id,
                e,
            ),
        forall|id: Uid| #[trigger]
            lookup(staged.spec_assign(graph.nodes, connection).new_nodes, id) is Some <==> lookup(
                staged.new_nodes,
                id,
            ) is Some,
        forall|e: EdgeDescriptor<EV>|
            hosted(staged, e) && e != connection ==> #[trigger] hosted(
                staged.spec_assign(graph.nodes, connection),
                e,
            ),
        staged.spec_assign(graph.nodes, connection).delete_nodes == staged.delete_nodes,
        staged.spec_assign(graph.nodes, connection).errors == staged.errors,
        staged.spec_assign(graph.nodes, connection).entry_edges == staged.entry_edges,
{
    reveal(records_in_place);
    let after = staged.spec_assign(graph.nodes, connection);
    let host = connection.host;
    let target = connection.target;
    let mirror = connection.spec_invert();
    assert(new_in_place(graph, target, lookup(staged.new_nodes, target)->0));
    // The graph cannot hold the connection already: its target is new.
    if graph.node(host) is Some && graph.node(host)->0.spec_search_for_edge(
        rendering_pattern(connection),
    ) is Some {
        lemma_held_leads_there(graph.node(host)->0, connection);
        let e = choose|e: EdgeDescriptor<EV>| #[trigger]
            graph.node(host)->0.holds(e) && e.target == connection.target;
        assert(graph.node(e.target) is Some);
    }
    if lookup(staged.new_nodes, host) is Some {
        let record = lookup(staged.new_nodes, host)->0;
        assert(new_in_place(graph, host, record));
        let marked = NewNodeView {
            add_edges: spec_retag(record.add_edges, connection, Some(EdgeDir::Emit)),
            ..record
        };
        let with_host = put(staged.new_nodes, host, marked);
        lemma_put_keeps_unique(staged.new_nodes, host, marked);
        lemma_lookup_put_same(staged.new_nodes, host, marked);
        let target_record = lookup(with_host, target)->0;
        if host != target {
            lemma_lookup_put_other(staged.new_nodes, host, marked, target);
        }
        let marked_target = NewNodeView {
            add_edges: spec_retag(target_record.add_edges, mirror, Some(EdgeDir::Recv)),
            ..target_record
        };
        assert(after.new_nodes == put(with_host, target, marked_target));
        assert(after.update_nodes == staged.update_nodes);
        lemma_put_keeps_unique(with_host, target, marked_target);
        lemma_lookup_put_same(with_host, target, marked_target);
        assert forall|id: Uid| id != target implies lookup(after.new_nodes, id) == lookup(
            with_host,
            id,
        ) by {
            lemma_lookup_put_other(with_host, target, marked_target, id);
        }
        assert forall|id: Uid| id != host implies lookup(with_host, id) == lookup(
            staged.new_nodes,
            id,
        ) by {
            lemma_lookup_put_other(staged.new_nodes, host, marked, id);
        }
        assert forall|e: EdgeDescriptor<EV>|
            marked.add_edges.contains(e) <==> (record.add_edges.contains(e) && e != connection)
                || e == connection.spec_with_render(Some(EdgeDir::Emit)) by {
            lemma_retag_members(record.add_edges, connection, Some(EdgeDir::Emit), e);
        }
        lemma_retag_members(record.add_edges, connection, Some(EdgeDir::Emit), connection);
        assert(target_record.add_edges.no_duplicates());
        assert forall|e: EdgeDescriptor<EV>|
            marked_target.add_edges.contains(e) <==> (target_record.add_edges.contains(e) && e
                != mirror) || e == mirror.spec_with_render(Some(EdgeDir::Recv)) by {
            lemma_retag_members(target_record.add_edges, mirror, Some(EdgeDir::Recv), e);
        }
        lemma_retag_members(target_record.add_edges, mirror, Some(EdgeDir::Recv), mirror);
        assert forall|id: Uid, e: EdgeDescriptor<EV>| #[trigger]
            staged_adds(after, id, e) <==> assigned_adds(staged, connection, id, e) by {
            if lookup(staged.update_nodes, id) is Some {
                assert(update_in_place(graph, id, lookup(staged.update_nodes, id)->0));
            }
            if lookup(staged.new_nodes, id) is Some {
                assert(new_in_place(graph, id, lookup(staged.new_nodes, id)->0));
            }
            if id != target {
                assert(lookup(after.new_nodes, id) == lookup(with_host, id));
            }
            if id != host {
                assert(lookup(with_host, id) == lookup(staged.new_nodes, id));
            }
        }
        assert forall|id: Uid| #[trigger] lookup(after.new_nodes, id) is Some implies new_in_place(
            graph,
            id,
            lookup(after.new_nodes, id)->0,
        ) by {
            if id != target {
                assert(lookup(after.new_nodes, id) == lookup(with_host, id));
                if id != host {
                    assert(lookup(with_host, id) == lookup(staged.new_nodes, id));
                    assert(new_in_place(graph, id, lookup(staged.new_nodes, id)->0));
                }
            }
        }
        assert forall|id: Uid| #[trigger] lookup(after.new_nodes, id) is Some <==> lookup(
            staged.new_nodes,
            id,
        ) is Some by {
            if id != target {
                assert(lookup(after.new_nodes, id) == lookup(with_host, id));
            }
            if id != host {
                assert(lookup(with_host, id) == lookup(staged.new_nodes, id));
            }
        }
        assert forall|e: EdgeDescriptor<EV>| hosted(staged, e) && e != connection implies #[trigger] hosted(
            after,
            e,
        ) by {
            assert(lookup(after.new_nodes, e.host) is Some <==> lookup(
                staged.new_nodes,
                e.host,
            ) is Some);
        }
    } else {
        let change = lookup(staged.update_nodes, host)->0;
        assert(update_in_place(graph, host, change));
        assert(staged.update_node_or_blank(host) == change);
        assert(items_of(change.add_edges).contains(connection));
        let marked = change.spec_update_edge_render_info(connection, Some(EdgeDir::Emit));
        assert(marked.remove_edges is None);
        assert(after.update_nodes == put(staged.update_nodes, host, marked));
        lemma_put_keeps_unique(staged.update_nodes, host, marked);
        lemma_lookup_put_same(staged.update_nodes, host, marked);
        assert forall|id: Uid| id != host implies lookup(after.update_nodes, id) == lookup(
            staged.update_nodes,
            id,
        ) by {
            lemma_lookup_put_other(staged.update_nodes, host, marked, id);
        }
        assert(host != target);
        let target_record = lookup(staged.new_nodes, target)->0;
        let marked_target = NewNodeView {
            add_edges: spec_retag(target_record.add_edges, mirror, Some(EdgeDir::Recv)),
            ..target_record
        };
        assert(after.new_nodes == put(staged.new_nodes, target, marked_target));
        lemma_put_keeps_unique(staged.new_nodes, target, marked_target);
        lemma_lookup_put_same(staged.new_nodes, target, marked_target);
        assert forall|id: Uid| id != target implies lookup(after.new_nodes, id) == lookup(
            staged.new_nodes,
            id,
        ) by {
            lemma_lookup_put_other(staged.new_nodes, target, marked_target, id);
        }
        assert forall|e: EdgeDescriptor<EV>|
            items_of(marked.add_edges).contains(e) <==> (items_of(change.add_edges).contains(e)
                && e != connection) || e == connection.spec_with_render(Some(EdgeDir::Emit)) by {
            lemma_retag_members(items_of(change.add_edges), connection, Some(EdgeDir::Emit), e);
        }
        lemma_retag_members(
            items_of(change.add_edges),
            connection,
            Some(EdgeDir::Emit),
            connection,
        );
        assert forall|e: EdgeDescriptor<EV>|
            marked_target.add_edges.contains(e) <==> (target_record.add_edges.contains(e) && e
                != mirror) || e == mirror.spec_with_render(Some(EdgeDir::Recv)) by {
            lemma_retag_members(target_record.add_edges, mirror, Some(EdgeDir::Recv), e);
        }
        lemma_retag_members(target_record.add_edges, mirror, Some(EdgeDir::Recv), mirror);
        assert forall|id: Uid, e: EdgeDescriptor<EV>| #[trigger]
            staged_adds(after, id, e) <==> assigned_adds(staged, connection, id, e) by {
            if lookup(staged.update_nodes, id) is Some {
                assert(update_in_place(graph, id, lookup(staged.update_nodes, id)->0));
            }
            if lookup(staged.new_nodes, id) is Some {
                assert(new_in_place(graph, id, lookup(staged.new_nodes, id)->0));
            }
            if id != target {
                assert(lookup(after.new_nodes, id) == lookup(staged.new_nodes, id));
            }
            if id != host {
                assert(lookup(after.update_nodes, id) == lookup(staged.update_nodes, id));
            }
        }
        assert forall|id: Uid| #[trigger] lookup(after.new_nodes, id) is Some implies new_in_place(
            graph,
            id,
            lookup(after.new_nodes, id)->0,
        ) by {
            if id != target {
                assert(lookup(after.new_nodes, id) == lookup(staged.new_nodes, id));
                assert(new_in_place(graph, id, lookup(staged.new_nodes, id)->0));
            }
        }
        assert forall|id: Uid| #[trigger]
            lookup(after.update_nodes, id) is Some implies update_in_place(
            graph,
            id,
            lookup(after.update_nodes, id)->0,
        ) by {
            if id != host {
                assert(lookup(after.update_nodes, id) == lookup(staged.update_nodes, id));
                assert(update_in_place(graph, id, lookup(staged.update_nodes, id)->0));
            }
        }
        assert forall|id: Uid| #[trigger] lookup(after.new_nodes, id) is Some <==> lookup(
            staged.new_nodes,
            id,
        ) is Some by {
            if id != target {
                assert(lookup(after.new_nodes, id) == lookup(staged.new_nodes, id));
            }
        }
        assert forall|e: EdgeDescriptor<EV>| hosted(staged, e) && e != connection implies #[trigger] hosted(
            after,
            e,
        ) by {
            assert(lookup(after.new_nodes, e.host) is Some <==> lookup(
                staged.new_nodes,
                e.host,
            ) is Some);
            if e.host != host {
                assert(lookup(after.update_nodes, e.host) == lookup(staged.update_nodes, e.host));
            }
        }
    }
}

/// Assigning a connection in a transaction in pairs leaves the transaction
/// in pairs.
pub proof fn lemma_assign_keeps_pairing<TV, EV, AV>(
    staged: BuildBlueprintView<TV, EV>,
    graph: GraphView<TV, EV, AV>,
    connection: EdgeDescriptor<EV>,
)
    requires
        in_pairs(staged, graph),
        graph.in_order(),
        graph.symmetric(),
        assignable(staged, connection),
    ensures
        in_pairs(staged.spec_assign(graph.nodes, connection), graph),
{
    lemma_assign_stages(staged, graph, connection);
    let after = staged.spec_assign(graph.nodes, connection);
    let marked = connection.spec_with_render(Some(EdgeDir::Emit));
    let mirror = connection.spec_invert();
    let marked_mirror = mirror.spec_with_render(Some(EdgeDir::Recv));
    lemma_invert_involution(connection);
    assert(marked.spec_invert() == marked_mirror);
    assert(marked_mirror.spec_invert() == marked);
    assert(marked != mirror);
    assert(marked_mirror != connection);
    assert(mirrored_staging(after)) by {
        reveal(mirrored_staging);
        assert forall|id: Uid, e: EdgeDescriptor<EV>| #[trigger]
            staged_adds(after, id, e) implies e.host == id && staged_adds(
            after,
            e.target,
            e.spec_invert(),
        ) by {
            assert(assigned_adds(staged, connection, id, e));
            lemma_invert_involution(e);
            if e == marked {
                assert(assigned_adds(staged, connection, e.target, e.spec_invert()));
            } else if e == marked_mirror {
                assert(assigned_adds(staged, connection, e.target, e.spec_invert()));
            } else {
                assert(staged_adds(staged, id, e));
                assert(staged_adds(staged, e.target, e.spec_invert()));
                if e.spec_invert() == connection {
                    assert(e == mirror);
                }
                if e.spec_invert() == mirror {
                    assert(e == connection);
                }
                assert(assigned_adds(staged, connection, e.target, e.spec_invert()));
            }
        }
    }
}

/// Whether `edge` can still be assigned, or leads to a node that is
/// connected already.
pub open spec fn hosted_or_done<TV, EV>(
    staged: BuildBlueprintView<TV, EV>,
    connected: Set<Uid>,
    edge: EdgeDescriptor<EV>,
) -> bool {
    hosted(staged, edge) || connected.contains(edge.target)
}

/// Whether every candidate is hosted, or leads to a connected node.
#[verifier::opaque]
pub open spec fn candidates_hosted<TV, EV>(
    staged: BuildBlueprintView<TV, EV>,
    connected: Set<Uid>,
    candidates: Seq<(usize, EdgeDescriptor<EV>)>,
) -> bool {
    forall|c: (usize, EdgeDescriptor<EV>)| #[trigger]
        candidates.contains(c) ==> hosted_or_done(staged, connected, c.1)
}

/// Whether each of `edges` is hosted.
#[verifier::opaque]
pub open spec fn edges_hosted<TV, EV>(
    staged: BuildBlueprintView<TV, EV>,
    edges: Seq<EdgeDescriptor<EV>>,
) -> bool {
    forall|e: EdgeDescriptor<EV>| #[trigger] edges.contains(e) ==> hosted(staged, e)
}

/// Whether every node that waits, and every node that remains, is a node
/// in need of a render edge, and each such node is a new node whose edges
/// start from itself.
#[verifier::opaque]
pub open spec fn search_over_new<TV, EV>(
    staged: BuildBlueprintView<TV, EV>,
    search: RenderSearchView<TV, EV>,
) -> bool {
    &&& forall|id: Uid| #[trigger]
        lookup(search.uncertain, id) is Some <==> lookup(staged.new_nodes, id) is Some
    &&& forall|id: Uid, e: EdgeDescriptor<EV>|
        lookup(search.uncertain, id) is Some && #[trigger] lookup(
            search.uncertain,
            id,
        )->0.add_edges.contains(e) ==> e.host == id
    &&& forall|n: NewNodeView<TV, EV>| #[trigger]
        search.newly_connected.contains(n) ==> exists|id: Uid| #[trigger]
            lookup(search.uncertain, id) == Some(n)
    &&& forall|id: Uid| #[trigger]
        search.remaining.contains(id) ==> lookup(search.uncertain, id) is Some
}

/// Whether the search goes with a transaction that comes in pairs and
/// deletes nothing.
pub open spec fn pairs_in_search<TV, EV, AV>(
    staged: BuildBlueprintView<TV, EV>,
    search: RenderSearchView<TV, EV>,
    graph: GraphView<TV, EV, AV>,
) -> bool {
    &&& in_pairs(staged, graph)
    &&& staged.delete_nodes.len() == 0
    &&& candidates_hosted(staged, search.connected, search.candidates)
    &&& search_over_new(staged, search)
}

/// Offering hosted edges keeps every candidate hosted, and changes nothing
/// but the candidates.
proof fn lemma_offer_all_hosted<TV, EV>(
    staged: BuildBlueprintView<TV, EV>,
    search: RenderSearchView<TV, EV>,
    patterns: Seq<EdgeFinderView<EV>>,
    edges: Seq<EdgeDescriptor<EV>>,
)
    requires
        candidates_hosted(staged, search.connected, search.candidates),
        edges_hosted(staged, edges),
    ensures
        candidates_hosted(
            staged,
            search.connected,
            search.spec_offer_all(patterns, edges).candidates,
        ),
        search.spec_offer_all(patterns, edges) == (RenderSearchView {
            candidates: search.spec_offer_all(patterns, edges).candidates,
            ..search
        }),
    decreases edges.len(),
{
    if edges.len() > 0 {
        let first = search.spec_offer(patterns, edges[0]);
        lemma_skip_members(edges, edges[0]);
        assert(candidates_hosted(staged, first.connected, first.candidates)) by {
            reveal(candidates_hosted);
            reveal(edges_hosted);
            assert forall|c: (usize, EdgeDescriptor<EV>)| #[trigger]
                first.candidates.contains(c) implies hosted_or_done(
                staged,
                first.connected,
                c.1,
            ) by {
                lemma_insert_members(
                    search.candidates,
                    (crate::blueprint::render::rank_of(patterns, edges[0]) as usize, edges[0]),
                    c,
                );
            }
        }
        assert(edges_hosted(staged, edges.skip(1))) by {
            reveal(edges_hosted);
            assert forall|e: EdgeDescriptor<EV>| #[trigger] edges.skip(1).contains(e) implies hosted(
                staged,
                e,
            ) by {
                lemma_skip_members(edges, e);
            }
        }
        lemma_offer_all_hosted(staged, first, patterns, edges.skip(1));
    }
}

/// Offering the edges of nodes in need of a render edge keeps every
/// candidate hosted, and changes nothing but the candidates.
proof fn lemma_expand_hosted<TV, EV>(
    staged: BuildBlueprintView<TV, EV>,
    search: RenderSearchView<TV, EV>,
    patterns: Seq<EdgeFinderView<EV>>,
    nodes: Seq<NewNodeView<TV, EV>>,
)
    requires
        candidates_hosted(staged, search.connected, search.candidates),
        search_over_new(staged, search),
        forall|n: NewNodeView<TV, EV>| #[trigger]
            nodes.contains(n) ==> exists|id: Uid| #[trigger] lookup(search.uncertain, id) == Some(n),
    ensures
        candidates_hosted(
            staged,
            search.connected,
            search.spec_expand(patterns, nodes).candidates,
        ),
        search.spec_expand(patterns, nodes) == (RenderSearchView {
            candidates: search.spec_expand(patterns, nodes).candidates,
            ..search
        }),
    decreases nodes.len(),
{
    if nodes.len() > 0 {
        lemma_skip_members(nodes, nodes[0]);
        assert(edges_hosted(staged, nodes[0].add_edges)) by {
            reveal(edges_hosted);
            reveal(search_over_new);
            let id = choose|id: Uid| #[trigger] lookup(search.uncertain, id) == Some(nodes[0]);
            assert forall|e: EdgeDescriptor<EV>| #[trigger]
                nodes[0].add_edges.contains(e) implies hosted(staged, e) by {
                assert(lookup(search.uncertain, id)->0.add_edges.contains(e));
                assert(e.host == id);
            }
        }
        lemma_offer_all_hosted(staged, search, patterns, nodes[0].add_edges);
        let first = search.spec_offer_all(patterns, nodes[0].add_edges);
        assert(search_over_new(staged, first)) by {
            reveal(search_over_new);
        }
        assert forall|n: NewNodeView<TV, EV>| #[trigger] nodes.skip(1).contains(n) implies exists|
            id: Uid,
        | #[trigger] lookup(first.uncertain, id) == Some(n) by {
            lemma_skip_members(nodes, n);
            let id = choose|id: Uid| #[trigger] lookup(search.uncertain, id) == Some(n);
            assert(lookup(first.uncertain, id) == Some(n));
        }
        lemma_expand_hosted(staged, first, patterns, nodes.skip(1));
    }
}

/// Settling a candidate keeps the search with a transaction that comes in
/// pairs, and adds no error.
proof fn lemma_settle_pairs<TV, EV, AV>(
    staged: BuildBlueprintView<TV, EV>,
    search: RenderSearchView<TV, EV>,
    graph: GraphView<TV, EV, AV>,
    connection: EdgeDescriptor<EV>,
)
    requires
        pairs_in_search(staged, search, graph),
        hosted_or_done(staged, search.connected, connection),
        graph.in_order(),
        graph.symmetric(),
    ensures
        pairs_in_search(
            staged.spec_settle(search, graph.nodes, connection),
            spec_settled(search, connection),
            graph,
        ),
        staged.spec_settle(search, graph.nodes, connection).errors == staged.errors,
{
    let after = staged.spec_settle(search, graph.nodes, connection);
    let settled = spec_settled(search, connection);
    let target = connection.target;
    if !search.connected.contains(target) && lookup(search.uncertain, target) is Some {
        let node = lookup(search.uncertain, target)->0;
        assert(lookup(staged.new_nodes, target) is Some) by {
            reveal(search_over_new);
        }
        assert(settled == search.spec_connect(target, node));
        if after != staged {
            assert(graph.node(target) is None) by {
                reveal(records_in_place);
                assert(new_in_place(graph, target, lookup(staged.new_nodes, target)->0));
            }
            assert(after == staged.spec_assign(graph.nodes, connection));
            lemma_assign_stages(staged, graph, connection);
            lemma_assign_keeps_pairing(staged, graph, connection);
        }
        assert(candidates_hosted(after, settled.connected, settled.candidates)) by {
            reveal(candidates_hosted);
            assert forall|c: (usize, EdgeDescriptor<EV>)| #[trigger]
                settled.candidates.contains(c) implies hosted_or_done(
                after,
                settled.connected,
                c.1,
            ) by {
                assert(hosted_or_done(staged, search.connected, c.1));
                if c.1 != connection && hosted(staged, c.1) && after != staged {
                    assert(hosted(after, c.1));
                }
            }
        }
        assert(search_over_new(after, settled)) by {
            reveal(search_over_new);
            assert forall|n: NewNodeView<TV, EV>| #[trigger]
                settled.newly_connected.contains(n) implies exists|id: Uid| #[trigger]
                lookup(settled.uncertain, id) == Some(n) by {
                let j = choose|j: int|
                    0 <= j < settled.newly_connected.len() && settled.newly_connected[j] == n;
                if j < search.newly_connected.len() {
                    assert(search.newly_connected[j] == n);
                    assert(search.newly_connected.contains(n));
                } else {
                    assert(lookup(settled.uncertain, target) == Some(n));
                }
            }
            assert forall|id: Uid| #[trigger] settled.remaining.contains(id) implies lookup(
                settled.uncertain,
                id,
            ) is Some by {
                crate::collections::seq_facts::lemma_without_between(search.remaining, target, id);
            }
        }
    }
}

/// Where a search that goes with a transaction that comes in pairs ends
/// without a new error, the transaction still comes in pairs and deletes
/// nothing.
proof fn lemma_rounds_pair<TV, EV, AV>(
    staged: BuildBlueprintView<TV, EV>,
    search: RenderSearchView<TV, EV>,
    graph: GraphView<TV, EV, AV>,
    patterns: Seq<EdgeFinderView<EV>>,
    fuel: nat,
)
    requires
        pairs_in_search(staged, search, graph),
        graph.in_order(),
        graph.symmetric(),
    ensures
        staged.spec_render_rounds(search, graph.nodes, patterns, fuel).errors.len()
            >= staged.errors.len(),
        staged.spec_render_rounds(search, graph.nodes, patterns, fuel).errors.len()
            == staged.errors.len() ==> in_pairs(
            staged.spec_render_rounds(search, graph.nodes, patterns, fuel),
            graph,
        ) && staged.spec_render_rounds(search, graph.nodes, patterns, fuel).delete_nodes.len()
            == 0,
    decreases fuel,
{
    if search.remaining.len() == 0 {
    } else if fuel == 0 {
    } else {
        let cleared = RenderSearchView { newly_connected: Seq::<NewNodeView<TV, EV>>::empty(), ..search };
        assert(search_over_new(staged, cleared)) by {
            reveal(search_over_new);
        }
        assert forall|n: NewNodeView<TV, EV>| #[trigger]
            search.newly_connected.contains(n) implies exists|id: Uid| #[trigger]
            lookup(cleared.uncertain, id) == Some(n) by {
            reveal(search_over_new);
        }
        lemma_expand_hosted(staged, cleared, patterns, search.newly_connected);
        let offered = search.spec_expanded(patterns);
        assert(search_over_new(staged, offered)) by {
            reveal(search_over_new);
        }
        if offered.candidates.len() == 0 {
            assert(offered.remaining.contains(offered.remaining[0]));
            assert(lookup(staged.new_nodes, offered.remaining[0]) is Some) by {
                reveal(search_over_new);
            }
            lemma_first_new_found(staged.new_nodes, offered.remaining);
        } else {
            crate::blueprint::render::lemma_best_in_range(offered.candidates);
            let taken = offered.candidates[crate::blueprint::render::spec_best(
                offered.candidates,
            )];
            assert(offered.candidates.contains(taken));
            let left = RenderSearchView { candidates: without(offered.candidates, taken), ..offered };
            assert(hosted_or_done(staged, offered.connected, taken.1)) by {
                reveal(candidates_hosted);
            }
            assert(candidates_hosted(staged, left.connected, left.candidates)) by {
                reveal(candidates_hosted);
                assert forall|c: (usize, EdgeDescriptor<EV>)| #[trigger]
                    left.candidates.contains(c) implies hosted_or_done(
                    staged,
                    left.connected,
                    c.1,
                ) by {
                    crate::collections::seq_facts::lemma_without_between(
                        offered.candidates,
                        taken,
                        c,
                    );
                }
            }
            assert(search_over_new(staged, left)) by {
                reveal(search_over_new);
            }
            lemma_settle_pairs(staged, left, graph, taken.1);
            lemma_rounds_pair(
                staged.spec_settle(left, graph.nodes, taken.1),
                spec_settled(left, taken.1),
                graph,
                patterns,
                (fuel - 1) as nat,
            );
        }
    }
}

/// Whether the transaction deletes nothing, removes no edge and displaces
/// no node.
pub open spec fn only_adds<TV, EV>(staged: BuildBlueprintView<TV, EV>) -> bool {
    &&& staged.delete_nodes.len() == 0
    &&& staged.remove_edge_finders.len() == 0
    &&& staged.displaced_nodes.len() == 0
    &&& staged.displaced_entry_edges.len() == 0
}

/// Whether an edge to an alias can be staged on both sides: its host has
/// its record, and the node behind the alias, where there is one, is a new
/// node with its record.
pub open spec fn alias_staged<TV, EV>(
    staged: BuildBlueprintView<TV, EV>,
    temp: (EdgeDescriptor<EV>, bool),
) -> bool {
    &&& temp.1 ==> lookup(staged.new_nodes, temp.0.host) is Some
    &&& !temp.1 ==> lookup(staged.update_nodes, temp.0.host) is Some
    &&& staged.temp_id_map.dom().contains(temp.0.target) ==> lookup(
        staged.new_nodes,
        staged.temp_id_map[temp.0.target],
    ) is Some
}

/// Whether each of `temps` can be staged on both sides.
#[verifier::opaque]
pub open spec fn aliases_staged<TV, EV>(
    staged: BuildBlueprintView<TV, EV>,
    temps: Seq<(EdgeDescriptor<EV>, bool)>,
) -> bool {
    forall|t: (EdgeDescriptor<EV>, bool)| #[trigger] temps.contains(t) ==> alias_staged(staged, t)
}

/// Whether no edge that is staged for addition renders its host.
pub open spec fn unmarked_yet<TV, EV>(staged: BuildBlueprintView<TV, EV>) -> bool {
    forall|id: Uid, e: EdgeDescriptor<EV>| #[trigger]
        staged_adds(staged, id, e) ==> !crate::laws::render::renders_host(e)
}

/// Whether none of the edges to aliases carries a render mark.
pub open spec fn plain_aliases<EV>(temps: Seq<(EdgeDescriptor<EV>, bool)>) -> bool {
    forall|t: (EdgeDescriptor<EV>, bool)| #[trigger] temps.contains(t) ==> t.0.render_info is None
}

/// Where the aliases of a paired transaction are resolved without a new
/// error, the transaction still comes in pairs, and nothing is deleted,
/// removed or displaced that was not before; and where no staged edge
/// renders its host and no edge to an alias carries a render mark, no
/// staged edge renders its host afterwards.
pub proof fn lemma_resolve_pairs<TV, EV, AV>(
    staged: BuildBlueprintView<TV, EV>,
    graph: GraphView<TV, EV, AV>,
    temps: Seq<(EdgeDescriptor<EV>, bool)>,
)
    requires
        paired(staged, graph),
        aliases_staged(staged, temps),
    ensures
        staged.spec_resolve_temp_edges(temps).errors.len() >= staged.errors.len(),
        staged.spec_resolve_temp_edges(temps).errors.len() == staged.errors.len() ==> paired(
            staged.spec_resolve_temp_edges(temps),
            graph,
        ),
        staged.spec_resolve_temp_edges(temps).delete_nodes == staged.delete_nodes,
        staged.spec_resolve_temp_edges(temps).remove_edge_finders == staged.remove_edge_finders,
        staged.spec_resolve_temp_edges(temps).displaced_nodes == staged.displaced_nodes,
        staged.spec_resolve_temp_edges(temps).displaced_entry_edges
            == staged.displaced_entry_edges,
        staged.spec_resolve_temp_edges(temps).temp_id_map == staged.temp_id_map,
        unmarked_yet(staged) && plain_aliases(temps) && staged.spec_resolve_temp_edges(
            temps,
        ).errors.len() == staged.errors.len() ==> unmarked_yet(
            staged.spec_resolve_temp_edges(temps),
        ),
    decreases temps.len(),
{
    if temps.len() > 0 {
        let (edge, is_new) = temps[0];
        lemma_skip_members(temps, temps[0]);
        if plain_aliases(temps) {
            assert(temps.contains(temps[0]));
            assert(edge.render_info is None);
            assert forall|t: (EdgeDescriptor<EV>, bool)| #[trigger]
                temps.skip(1).contains(t) implies t.0.render_info is None by {
                lemma_skip_members(temps, t);
            }
        }
        assert(alias_staged(staged, temps[0])) by {
            reveal(aliases_staged);
        }
        let first = staged.spec_resolve_temp_edge(temps[0]);
        if staged.temp_id_map.dom().contains(edge.target) {
            let resolved = EdgeDescriptor { target: staged.temp_id_map[edge.target], ..edge };
            assert(records_in_place(staged, graph));
            lemma_add_edge_stages(staged, graph, resolved.spec_invert(), true);
            let with_mirror = staged.spec_add_edge(resolved.spec_invert(), true);
            let entered = if is_new {
                with_mirror
            } else {
                with_mirror.spec_add_entry_edge(resolved)
            };
            assert(records_in_place(entered, graph)) by {
                reveal(records_in_place);
            }
            assert forall|id: Uid, x: EdgeDescriptor<EV>| #[trigger]
                staged_adds(entered, id, x) <==> staged_adds(with_mirror, id, x) by {}
            assert(keeps_records(entered, with_mirror));
            lemma_add_edge_stages(entered, graph, resolved, is_new);
            assert(first == entered.spec_add_edge(resolved, is_new));
            lemma_invert_involution(resolved);
            assert(mirrored_staging(first)) by {
                reveal(mirrored_staging);
                assert forall|id: Uid, e: EdgeDescriptor<EV>| #[trigger]
                    staged_adds(first, id, e) implies e.host == id && staged_adds(
                    first,
                    e.target,
                    e.spec_invert(),
                ) by {
                    if staged_adds(staged, id, e) {
                        assert(staged_adds(staged, e.target, e.spec_invert()));
                        assert(staged_adds(with_mirror, e.target, e.spec_invert()));
                        assert(staged_adds(entered, e.target, e.spec_invert()));
                    } else {
                        assert(staged_adds(entered, id, e) <==> staged_adds(with_mirror, id, e));
                        if e == resolved {
                            assert(staged_adds(with_mirror, resolved.target, resolved.spec_invert()));
                            assert(staged_adds(entered, resolved.target, resolved.spec_invert()));
                        } else {
                            assert(e == resolved.spec_invert());
                        }
                    }
                }
            }
            assert(entries_staged(first)) by {
                reveal(entries_staged);
                assert forall|e: EdgeDescriptor<EV>| #[trigger]
                    first.entry_edges.contains(e) implies stages(first, e) by {
                    if !is_new {
                        lemma_insert_members(with_mirror.entry_edges, resolved, e);
                    }
                    if staged.entry_edges.contains(e) {
                        assert(stages(staged, e));
                        assert(stages(with_mirror, e));
                        assert(stages(entered, e));
                    }
                }
            }
            assert(aliases_staged(first, temps.skip(1))) by {
                reveal(aliases_staged);
                assert forall|t: (EdgeDescriptor<EV>, bool)| #[trigger]
                    temps.skip(1).contains(t) implies alias_staged(first, t) by {
                    lemma_skip_members(temps, t);
                    assert(alias_staged(staged, t));
                    if t.1 {
                        assert(lookup(with_mirror.new_nodes, t.0.host) is Some);
                        assert(lookup(entered.new_nodes, t.0.host) is Some);
                    } else {
                        assert(lookup(with_mirror.update_nodes, t.0.host) is Some);
                        assert(lookup(entered.update_nodes, t.0.host) is Some);
                    }
                    if staged.temp_id_map.dom().contains(t.0.target) {
                        let behind = staged.temp_id_map[t.0.target];
                        assert(lookup(with_mirror.new_nodes, behind) is Some);
                        assert(lookup(entered.new_nodes, behind) is Some);
                    }
                }
            }
            if unmarked_yet(staged) && plain_aliases(temps) {
                assert forall|id: Uid, e: EdgeDescriptor<EV>| #[trigger]
                    staged_adds(first, id, e) implies !crate::laws::render::renders_host(e) by {
                    if !staged_adds(staged, id, e) {
                        assert(staged_adds(entered, id, e) <==> staged_adds(with_mirror, id, e));
                        assert(e == resolved || e == resolved.spec_invert());
                    }
                }
            }
            lemma_resolve_pairs(first, graph, temps.skip(1));
        } else {
            lemma_resolve_frame(first, temps.skip(1));
        }
    }
}

/// Resolving aliases loses no error and touches nothing of what is
/// deleted, removed or displaced, nor the aliases themselves.
pub proof fn lemma_resolve_frame<TV, EV>(
    staged: BuildBlueprintView<TV, EV>,
    temps: Seq<(EdgeDescriptor<EV>, bool)>,
)
    ensures
        staged.spec_resolve_temp_edges(temps).errors.len() >= staged.errors.len(),
        staged.spec_resolve_temp_edges(temps).delete_nodes == staged.delete_nodes,
        staged.spec_resolve_temp_edges(temps).remove_edge_finders == staged.remove_edge_finders,
        staged.spec_resolve_temp_edges(temps).displaced_nodes == staged.displaced_nodes,
        staged.spec_resolve_temp_edges(temps).displaced_entry_edges
            == staged.displaced_entry_edges,
        staged.spec_resolve_temp_edges(temps).temp_id_map == staged.temp_id_map,
    decreases temps.len(),
{
    if temps.len() > 0 {
        lemma_resolve_frame(staged.spec_resolve_temp_edge(temps[0]), temps.skip(1));
    }
}

/// Where the choice of render edges in a paired transaction that only adds
/// ends without a new error, every record is still in its place, every
/// staged edge still has its mirror staged, and nothing is deleted.
pub proof fn lemma_choice_pairs<TV, EV, AV>(
    staged: BuildBlueprintView<TV, EV>,
    graph: GraphView<TV, EV, AV>,
    patterns: Seq<EdgeFinderView<EV>>,
    entry_point: Option<Uid>,
)
    requires
        paired(staged, graph),
        only_adds(staged),
        graph.in_order(),
        graph.symmetric(),
    ensures
        staged.spec_set_render_edges(graph.nodes, patterns, entry_point).errors.len()
            >= staged.errors.len(),
        staged.spec_set_render_edges(graph.nodes, patterns, entry_point).errors.len()
            == staged.errors.len() ==> in_pairs(
            staged.spec_set_render_edges(graph.nodes, patterns, entry_point),
            graph,
        ) && staged.spec_set_render_edges(
            graph.nodes,
            patterns,
            entry_point,
        ).delete_nodes.len() == 0,
{
    let uncertain = crate::graph::reactive_node::build_reactive_node::spec_extend(
        staged.new_nodes,
        staged.displaced_nodes,
    );
    assert(uncertain == staged.new_nodes);
    let begin = RenderSearchView::begin(staged.new_nodes);
    crate::collections::seq_model::lemma_union_members(
        Seq::<Uid>::empty(),
        crate::collections::seq_model::keys_of(staged.new_nodes),
    );
    assert(search_over_new(staged, begin)) by {
        reveal(search_over_new);
        reveal(mirrored_staging);
        assert forall|id: Uid, e: EdgeDescriptor<EV>|
            lookup(begin.uncertain, id) is Some && #[trigger] lookup(
                begin.uncertain,
                id,
            )->0.add_edges.contains(e) implies e.host == id by {
            assert(staged_adds(staged, id, e));
        }
        assert forall|id: Uid| #[trigger] begin.remaining.contains(id) implies lookup(
            begin.uncertain,
            id,
        ) is Some by {
            lemma_keys_are_found(staged.new_nodes, id);
            assert(!Seq::<Uid>::empty().contains(id));
        }
    }
    assert(candidates_hosted(staged, begin.connected, begin.candidates)) by {
        reveal(candidates_hosted);
    }
    match entry_point {
        Some(temp) => {
            if staged.temp_id_map.dom().contains(temp) {
                let root = staged.temp_id_map[temp];
                match lookup(begin.uncertain, root) {
                    None => {},
                    Some(node) => {
                        if node.spec_render_edge() is None {
                            let started = begin.spec_connect(root, node);
                            assert(candidates_hosted(
                                staged,
                                started.connected,
                                started.candidates,
                            )) by {
                                reveal(candidates_hosted);
                            }
                            assert(search_over_new(staged, started)) by {
                                reveal(search_over_new);
                                assert forall|n: NewNodeView<TV, EV>| #[trigger]
                                    started.newly_connected.contains(n) implies exists|id: Uid|
                                    #[trigger] lookup(started.uncertain, id) == Some(n) by {
                                    let j = choose|j: int|
                                        0 <= j < started.newly_connected.len()
                                            && started.newly_connected[j] == n;
                                    assert(lookup(started.uncertain, root) == Some(n));
                                }
                                assert forall|id: Uid| #[trigger]
                                    started.remaining.contains(id) implies lookup(
                                    started.uncertain,
                                    id,
                                ) is Some by {
                                    crate::collections::seq_facts::lemma_without_between(
                                        begin.remaining,
                                        root,
                                        id,
                                    );
                                }
                            }
                            lemma_rounds_pair(staged, started, graph, patterns, usize::MAX as nat);
                        }
                    },
                }
            }
        },
        None => {
            assert(edges_hosted(staged, staged.entry_edges)) by {
                reveal(edges_hosted);
                reveal(entries_staged);
            }
            lemma_offer_all_hosted(staged, begin, patterns, staged.entry_edges);
            let seeded = begin.spec_offer_all(patterns, staged.entry_edges);
            assert(edges_hosted(staged, staged.displaced_entry_edges)) by {
                reveal(edges_hosted);
            }
            lemma_offer_all_hosted(staged, seeded, patterns, staged.displaced_entry_edges);
            let ready = seeded.spec_offer_all(patterns, staged.displaced_entry_edges);
            assert(search_over_new(staged, ready)) by {
                reveal(search_over_new);
            }
            lemma_rounds_pair(staged, ready, graph, patterns, usize::MAX as nat);
        },
    }
}

/// The value of an entry of a map with unique keys is the value that is
/// found under its key.
pub proof fn lemma_lookup_entry<K, V>(m: Seq<(K, V)>, i: int)
    requires
        unique_keys(m),
        0 <= i < m.len(),
    ensures
        lookup(m, m[i].0) == Some(m[i].1),
{
    crate::collections::seq_model::lemma_key_index(m, m[i].0);
    let j = crate::collections::seq_model::key_index(m, m[i].0);
    assert(j >= i);
    if j != i {
        assert(crate::collections::seq_model::keys_of(m)[i] == m[i].0);
        assert(crate::collections::seq_model::keys_of(m)[j] == m[i].0);
    }
}

/// The changes as they are sealed: each under its key, in order.
pub open spec fn sealed_entries<TV, EV, AV>(
    graph: Seq<(Uid, NodeView<TV, EV, AV>)>,
    updates: Seq<(Uid, UpdateNodeView<TV, EV>)>,
) -> Seq<(Uid, crate::blueprint::finalized_update_node::FinalizedUpdateNodeView<TV, EV>)> {
    Seq::new(
        updates.len(),
        |i: int| (updates[i].0, crate::blueprint::finalize::spec_seal(graph, updates[i].0, updates[i].1)),
    )
}

/// Changes under unique keys are sealed each under its key, in order.
pub proof fn lemma_sealed_in_order<TV, EV, AV>(
    sealed: crate::blueprint::finalize::Sealed<TV, EV>,
    graph: Seq<(Uid, NodeView<TV, EV, AV>)>,
    updates: Seq<(Uid, UpdateNodeView<TV, EV>)>,
)
    requires
        unique_keys(updates),
        forall|i: int| 0 <= i < updates.len() ==> lookup(sealed.updates, (#[trigger] updates[i]).0) is None,
    ensures
        crate::blueprint::finalize::spec_seal_each(sealed, graph, updates).updates
            == sealed.updates + sealed_entries(graph, updates),
    decreases updates.len(),
{
    if updates.len() > 0 {
        let (key, update) = updates[0];
        let record = crate::blueprint::finalize::spec_seal(graph, key, update);
        let next = crate::blueprint::finalize::Sealed {
            updates: put(sealed.updates, key, record),
            errors: if update.replacement_data is Some && lookup(graph, key) is None {
                sealed.errors.push(crate::blueprint::finalize::update_not_found(key))
            } else {
                sealed.errors
            },
        };
        assert(lookup(sealed.updates, updates[0].0) is None);
        assert(next.updates == sealed.updates.push((key, record)));
        assert(unique_keys(updates.skip(1))) by {
            assert forall|x: int, y: int|
                0 <= x < updates.skip(1).len() && 0 <= y < updates.skip(1).len() && x
                    != y implies crate::collections::seq_model::keys_of(updates.skip(1))[x]
                != crate::collections::seq_model::keys_of(updates.skip(1))[y] by {
                assert(crate::collections::seq_model::keys_of(updates)[x + 1]
                    != crate::collections::seq_model::keys_of(updates)[y + 1]);
            }
        }
        assert forall|i: int| 0 <= i < updates.skip(1).len() implies lookup(
            next.updates,
            (#[trigger] updates.skip(1)[i]).0,
        ) is None by {
            assert(updates.skip(1)[i] == updates[i + 1]);
            assert(crate::collections::seq_model::keys_of(updates)[i + 1]
                != crate::collections::seq_model::keys_of(updates)[0]);
            lemma_lookup_put_other(sealed.updates, key, record, updates[i + 1].0);
            assert(lookup(sealed.updates, updates[i + 1].0) is None);
        }
        lemma_sealed_in_order(next, graph, updates.skip(1));
        assert(next.updates + sealed_entries(graph, updates.skip(1)) =~= sealed.updates
            + sealed_entries(graph, updates));
    } else {
        assert(sealed.updates + sealed_entries(graph, updates) =~= sealed.updates);
    }
}

/// A transaction that is sealed from one in pairs that deletes nothing is
/// plain on the graph and treats both sides of every edge alike.
pub proof fn lemma_sealed_is_mirrored<TV, EV, AV>(
    chosen: BuildBlueprintView<TV, EV>,
    graph: GraphView<TV, EV, AV>,
    sealed: crate::blueprint::finalized_blueprint::FinalizedBlueprintView<TV, EV>,
)
    requires
        in_pairs(chosen, graph),
        sealed.new_nodes == chosen.new_nodes,
        sealed.update_nodes == sealed_entries(graph.nodes, chosen.update_nodes),
        sealed.delete_nodes.len() == 0,
    ensures
        sealed.plain_on(graph),
        sealed.mirrored_on(graph),
{
    reveal(records_in_place);
    let new_ids = crate::laws::graphs::new_ids(sealed.new_nodes);
    let update_ids = crate::laws::graphs::update_ids(sealed.update_nodes);
    assert forall|i: int| 0 <= i < sealed.new_nodes.len() implies (#[trigger] sealed.new_nodes[i]).0
        == sealed.new_nodes[i].1.id && graph.node(sealed.new_nodes[i].1.id) is None by {
        lemma_lookup_entry(chosen.new_nodes, i);
        assert(new_in_place(graph, chosen.new_nodes[i].0, chosen.new_nodes[i].1));
    }
    assert(new_ids =~= crate::collections::seq_model::keys_of(chosen.new_nodes)) by {
        assert forall|i: int| 0 <= i < new_ids.len() implies new_ids[i]
            == crate::collections::seq_model::keys_of(chosen.new_nodes)[i] by {
            assert(sealed.new_nodes[i].0 == sealed.new_nodes[i].1.id);
        }
    }
    assert forall|i: int| 0 <= i < sealed.update_nodes.len() implies (
    #[trigger] sealed.update_nodes[i]).1.id == chosen.update_nodes[i].0 && graph.node(
        sealed.update_nodes[i].1.id,
    ) is Some && sealed.update_nodes[i].1.add_edges == chosen.update_nodes[i].1.add_edges
        && sealed.update_nodes[i].1.remove_edges is None by {
        lemma_lookup_entry(chosen.update_nodes, i);
        assert(update_in_place(graph, chosen.update_nodes[i].0, chosen.update_nodes[i].1));
    }
    assert(update_ids =~= crate::collections::seq_model::keys_of(chosen.update_nodes)) by {
        assert forall|i: int| 0 <= i < update_ids.len() implies update_ids[i]
            == crate::collections::seq_model::keys_of(chosen.update_nodes)[i] by {
            assert(sealed.update_nodes[i].1.id == chosen.update_nodes[i].0);
        }
    }
    assert(sealed.plain_on(graph));
    // What the sealed transaction creates and changes is what is staged.
    assert forall|id: Uid| sealed.created(id) == lookup(chosen.new_nodes, id) by {
        lemma_keys_are_found(chosen.new_nodes, id);
        if new_ids.contains(id) {
            let i = choose|i: int| 0 <= i < new_ids.len() && new_ids[i] == id;
            lemma_lookup_entry(chosen.new_nodes, i);
            assert(sealed.new_nodes[i].0 == sealed.new_nodes[i].1.id);
        }
    }
    assert forall|id: Uid|
        (sealed.change(id) is Some <==> lookup(chosen.update_nodes, id) is Some) && (sealed.change(
            id,
        ) is Some ==> sealed.change(id)->0.add_edges == lookup(
            chosen.update_nodes,
            id,
        )->0.add_edges && sealed.change(id)->0.remove_edges is None) by {
        lemma_keys_are_found(chosen.update_nodes, id);
        if update_ids.contains(id) {
            let i = choose|i: int| 0 <= i < update_ids.len() && update_ids[i] == id;
            lemma_lookup_entry(chosen.update_nodes, i);
            assert(sealed.update_nodes[i].1.id == chosen.update_nodes[i].0);
        }
    }
    assert forall|id: Uid| !sealed.deletes(id) by {
        assert(crate::collections::seq_model::keys_of(sealed.delete_nodes).len() == 0);
    }
    assert forall|id: Uid, e: EdgeDescriptor<EV>| #[trigger]
        sealed.adds(id, e) <==> staged_adds(chosen, id, e) by {
        assert(sealed.created(id) == lookup(chosen.new_nodes, id));
        assert(sealed.change(id) is Some <==> lookup(chosen.update_nodes, id) is Some);
    }
    assert forall|id: Uid, e: EdgeDescriptor<EV>| #[trigger] sealed.adds(id, e) implies e.host
        == id && sealed.adds(e.target, e.spec_invert()) by {
        reveal(mirrored_staging);
        assert(staged_adds(chosen, id, e));
        assert(staged_adds(chosen, e.target, e.spec_invert()));
    }
    assert forall|id: Uid, e: EdgeDescriptor<EV>| !#[trigger] sealed.removes(id, e) by {
        assert(!sealed.deletes(id));
        assert(sealed.change(id) is Some ==> sealed.change(id)->0.remove_edges is None);
    }
}

/// A paired transaction that only adds, finalized with success and applied
/// to a graph in order in which every edge has its mirror, leaves a graph
/// in order in which every edge has its mirror.
pub proof fn law_creating_keeps_symmetry<TV, EV, AV>(
    staged: BuildBlueprintView<TV, EV>,
    graph: GraphView<TV, EV, AV>,
    specifiers: Option<Seq<crate::blueprint::build_blueprint::AllowedRenderEdgeSpecifier<EV>>>,
    entry_point: Option<Uid>,
    sealed: crate::blueprint::finalized_blueprint::FinalizedBlueprintView<TV, EV>,
    action: crate::graph::reactive_node::last_action::ActionData<AV>,
    applied: GraphView<TV, EV, AV>,
)
    requires
        graph.in_order(),
        graph.symmetric(),
        paired(staged, graph),
        only_adds(staged),
        aliases_staged(staged, staged.temp_edges),
        staged.spec_finalize(graph.nodes, specifiers, entry_point) == Ok::<
            crate::blueprint::finalized_blueprint::FinalizedBlueprintView<TV, EV>,
            Seq<crate::common::GraphErrorView>,
        >(sealed),
        graph.spec_apply(sealed, action) == Ok::<GraphView<TV, EV, AV>, crate::common::GraphErrorView>(
            applied,
        ),
    ensures
        applied.in_order(),
        applied.symmetric(),
{
    let patterns = crate::blueprint::render::spec_render_patterns(specifiers);
    let resolved = staged.spec_update_temp_ids();
    lemma_resolve_pairs(staged, graph, staged.temp_edges);
    let cascaded = staged.spec_cascaded(graph.nodes);
    assert(cascaded == resolved.spec_hold_back_entries());
    if resolved.errors.len() == staged.errors.len() {
        assert(paired(cascaded, graph)) by {
            reveal(records_in_place);
            reveal(mirrored_staging);
            reveal(entries_staged);
            assert forall|id: Uid, e: EdgeDescriptor<EV>| #[trigger]
                staged_adds(cascaded, id, e) implies e.host == id && staged_adds(
                cascaded,
                e.target,
                e.spec_invert(),
            ) by {
                assert(staged_adds(resolved, id, e));
            }
            assert forall|e: EdgeDescriptor<EV>| #[trigger]
                cascaded.entry_edges.contains(e) implies stages(cascaded, e) by {
                crate::laws::cascade::lemma_staying_members(
                    resolved.entry_edges,
                    resolved.displaced_nodes,
                    e,
                );
                assert(stages(resolved, e));
            }
        }
    }
    let resolved = cascaded;
    let chosen = resolved.spec_set_render_edges(graph.nodes, patterns, entry_point);
    crate::laws::render::law_no_error_is_lost(resolved, graph.nodes, patterns, entry_point);
    crate::laws::render::lemma_seal_grows(
        crate::blueprint::finalize::Sealed { updates: Seq::empty(), errors: chosen.errors },
        graph.nodes,
        chosen.update_nodes,
    );
    assert(resolved.errors.len() == 0);
    lemma_choice_pairs(resolved, graph, patterns, entry_point);
    crate::laws::render::lemma_seal_grows(
        crate::blueprint::finalize::Sealed { updates: Seq::empty(), errors: chosen.errors },
        graph.nodes,
        chosen.update_nodes,
    );
    assert(chosen.errors.len() == 0);
    assert(unique_keys(chosen.update_nodes)) by {
        reveal(records_in_place);
    }
    lemma_sealed_in_order(
        crate::blueprint::finalize::Sealed { updates: Seq::empty(), errors: chosen.errors },
        graph.nodes,
        chosen.update_nodes,
    );
    assert(Seq::<
        (Uid, crate::blueprint::finalized_update_node::FinalizedUpdateNodeView<TV, EV>),
    >::empty() + sealed_entries(graph.nodes, chosen.update_nodes) =~= sealed_entries(
        graph.nodes,
        chosen.update_nodes,
    ));
    assert(sealed.delete_nodes.len() == 0);
    lemma_sealed_is_mirrored(chosen, graph, sealed);
    crate::laws::symmetry::law_apply_keeps_symmetry(graph, sealed, action, applied);
}

/// Whether every key of `before` is a key of `after`, in both maps of
/// records, and every edge that is staged as a change to a node of the
/// graph is still staged so.
pub open spec fn keeps_records<TV, EV>(
    after: BuildBlueprintView<TV, EV>,
    before: BuildBlueprintView<TV, EV>,
) -> bool {
    &&& forall|id: Uid|
        lookup(before.new_nodes, id) is Some ==> #[trigger] lookup(after.new_nodes, id) is Some
    &&& forall|id: Uid|
        lookup(before.update_nodes, id) is Some ==> #[trigger] lookup(
            after.update_nodes,
            id,
        ) is Some
    &&& forall|e: EdgeDescriptor<EV>| stages(before, e) ==> #[trigger] stages(after, e)
}

/// Staging an edge on a host that has its record keeps every record in its
/// place and stages that edge besides what was staged.
pub proof fn lemma_add_edge_stages<TV, EV, AV>(
    staged: BuildBlueprintView<TV, EV>,
    graph: GraphView<TV, EV, AV>,
    edge: EdgeDescriptor<EV>,
    is_new: bool,
)
    requires
        records_in_place(staged, graph),
        is_new ==> lookup(staged.new_nodes, edge.host) is Some,
        !is_new ==> lookup(staged.update_nodes, edge.host) is Some,
    ensures
        records_in_place(staged.spec_add_edge(edge, is_new), graph),
        forall|id: Uid, x: EdgeDescriptor<EV>| #[trigger]
            staged_adds(staged.spec_add_edge(edge, is_new), id, x) <==> staged_adds(staged, id, x)
                || (id == edge.host && x == edge),
        keeps_records(staged.spec_add_edge(edge, is_new), staged),
        !is_new ==> stages(staged.spec_add_edge(edge, is_new), edge),
        staged.spec_add_edge(edge, is_new).entry_edges == staged.entry_edges,
{
    reveal(records_in_place);
    let after = staged.spec_add_edge(edge, is_new);
    let host = edge.host;
    if is_new {
        let record = lookup(staged.new_nodes, host)->0;
        assert(new_in_place(graph, host, record));
        let grown = NewNodeView { add_edges: insert_unique(record.add_edges, edge), ..record };
        lemma_put_keeps_unique(staged.new_nodes, host, grown);
        lemma_lookup_put_same(staged.new_nodes, host, grown);
        lemma_insert_keeps_distinct(record.add_edges, edge);
        assert forall|id: Uid| id != host implies lookup(after.new_nodes, id) == lookup(
            staged.new_nodes,
            id,
        ) by {
            lemma_lookup_put_other(staged.new_nodes, host, grown, id);
        }
        assert forall|id: Uid, x: EdgeDescriptor<EV>| #[trigger]
            staged_adds(after, id, x) <==> staged_adds(staged, id, x) || (id == host && x
                == edge) by {
            lemma_insert_members(record.add_edges, edge, x);
            if id != host {
                assert(lookup(after.new_nodes, id) == lookup(staged.new_nodes, id));
            }
            if lookup(staged.update_nodes, host) is Some {
                assert(update_in_place(graph, host, lookup(staged.update_nodes, host)->0));
            }
        }
        assert forall|id: Uid| #[trigger] lookup(after.new_nodes, id) is Some implies new_in_place(
            graph,
            id,
            lookup(after.new_nodes, id)->0,
        ) by {
            if id != host {
                assert(lookup(after.new_nodes, id) == lookup(staged.new_nodes, id));
                assert(new_in_place(graph, id, lookup(staged.new_nodes, id)->0));
            }
        }
        assert forall|id: Uid| lookup(staged.new_nodes, id) is Some implies #[trigger] lookup(
            after.new_nodes,
            id,
        ) is Some by {
            if id != host {
                assert(lookup(after.new_nodes, id) == lookup(staged.new_nodes, id));
            }
        }
    } else {
        let record = lookup(staged.update_nodes, host)->0;
        assert(update_in_place(graph, host, record));
        assert(staged.update_node_or_blank(host) == record);
        let grown = UpdateNodeView {
            add_edges: Some(insert_unique(items_of(record.add_edges), edge)),
            ..record
        };
        lemma_put_keeps_unique(staged.update_nodes, host, grown);
        lemma_lookup_put_same(staged.update_nodes, host, grown);
        lemma_insert_keeps_distinct(items_of(record.add_edges), edge);
        assert forall|id: Uid| id != host implies lookup(after.update_nodes, id) == lookup(
            staged.update_nodes,
            id,
        ) by {
            lemma_lookup_put_other(staged.update_nodes, host, grown, id);
        }
        assert forall|id: Uid, x: EdgeDescriptor<EV>| #[trigger]
            staged_adds(after, id, x) <==> staged_adds(staged, id, x) || (id == host && x
                == edge) by {
            lemma_insert_members(items_of(record.add_edges), edge, x);
            if id != host {
                assert(lookup(after.update_nodes, id) == lookup(staged.update_nodes, id));
            }
            if lookup(staged.new_nodes, host) is Some {
                assert(new_in_place(graph, host, lookup(staged.new_nodes, host)->0));
            }
        }
        assert forall|id: Uid| #[trigger]
            lookup(after.update_nodes, id) is Some implies update_in_place(
            graph,
            id,
            lookup(after.update_nodes, id)->0,
        ) by {
            if id != host {
                assert(lookup(after.update_nodes, id) == lookup(staged.update_nodes, id));
                assert(update_in_place(graph, id, lookup(staged.update_nodes, id)->0));
            }
        }
        assert forall|id: Uid| lookup(staged.update_nodes, id) is Some implies #[trigger] lookup(
            after.update_nodes,
            id,
        ) is Some by {
            if id != host {
                assert(lookup(after.update_nodes, id) == lookup(staged.update_nodes, id));
            }
        }
        assert forall|e: EdgeDescriptor<EV>| stages(staged, e) implies #[trigger] stages(
            after,
            e,
        ) by {
            if e.host != host {
                assert(lookup(after.update_nodes, e.host) == lookup(staged.update_nodes, e.host));
            } else {
                lemma_insert_members(items_of(record.add_edges), edge, e);
            }
        }
        assert(stages(after, edge)) by {
            lemma_insert_members(items_of(record.add_edges), edge, edge);
        }
    }
}

/// Staging the record of a handle to a new node, which carries no edges,
/// for a node that the graph does not hold, keeps every record in its
/// place and stages no edge.
pub proof fn lemma_add_node_stages<TV, EV, AV>(
    staged: BuildBlueprintView<TV, EV>,
    graph: GraphView<TV, EV, AV>,
    node: NewNodeView<TV, EV>,
)
    requires
        records_in_place(staged, graph),
        node.add_edges.len() == 0,
        graph.node(node.id) is None,
    ensures
        records_in_place(staged.spec_add_node(node), graph),
        forall|id: Uid, x: EdgeDescriptor<EV>| #[trigger]
            staged_adds(staged.spec_add_node(node), id, x) <==> staged_adds(staged, id, x),
        keeps_records(staged.spec_add_node(node), staged),
        lookup(staged.spec_add_node(node).new_nodes, node.id) is Some,
        staged.spec_add_node(node).entry_edges == staged.entry_edges,
        staged.spec_add_node(node).update_nodes == staged.update_nodes,
{
    reveal(records_in_place);
    let after = staged.spec_add_node(node);
    let record = match lookup(staged.new_nodes, node.id) {
        Some(existing) => existing.spec_merge_additive(node, staged.default_data),
        None => node,
    };
    if lookup(staged.new_nodes, node.id) is Some {
        assert(new_in_place(graph, node.id, lookup(staged.new_nodes, node.id)->0));
    }
    assert(after.new_nodes == put(staged.new_nodes, node.id, record));
    lemma_put_keeps_unique(staged.new_nodes, node.id, record);
    lemma_lookup_put_same(staged.new_nodes, node.id, record);
    assert forall|id: Uid| id != node.id implies lookup(after.new_nodes, id) == lookup(
        staged.new_nodes,
        id,
    ) by {
        lemma_lookup_put_other(staged.new_nodes, node.id, record, id);
    }
    assert(record.add_edges == (match lookup(staged.new_nodes, node.id) {
        Some(existing) => existing.add_edges,
        None => node.add_edges,
    }));
    assert forall|id: Uid, x: EdgeDescriptor<EV>| #[trigger]
        staged_adds(after, id, x) <==> staged_adds(staged, id, x) by {
        if id != node.id {
            assert(lookup(after.new_nodes, id) == lookup(staged.new_nodes, id));
        } else if lookup(staged.new_nodes, node.id) is None {
            assert(!node.add_edges.contains(x));
        }
    }
    assert forall|id: Uid| #[trigger] lookup(after.new_nodes, id) is Some implies new_in_place(
        graph,
        id,
        lookup(after.new_nodes, id)->0,
    ) by {
        if id != node.id {
            assert(lookup(after.new_nodes, id) == lookup(staged.new_nodes, id));
            assert(new_in_place(graph, id, lookup(staged.new_nodes, id)->0));
        }
    }
    assert forall|id: Uid| lookup(staged.new_nodes, id) is Some implies #[trigger] lookup(
        after.new_nodes,
        id,
    ) is Some by {
        if id != node.id {
            assert(lookup(after.new_nodes, id) == lookup(staged.new_nodes, id));
        }
    }
}

/// Staging the change of a handle to a node of the graph, which carries no
/// edges, keeps every record in its place and stages no edge.
pub proof fn lemma_update_node_stages<TV, EV, AV>(
    staged: BuildBlueprintView<TV, EV>,
    graph: GraphView<TV, EV, AV>,
    node: UpdateNodeView<TV, EV>,
)
    requires
        records_in_place(staged, graph),
        node.add_edges is None,
        node.remove_edges is None,
        graph.node(node.id) is Some,
    ensures
        records_in_place(staged.spec_update_node(node), graph),
        forall|id: Uid, x: EdgeDescriptor<EV>| #[trigger]
            staged_adds(staged.spec_update_node(node), id, x) <==> staged_adds(staged, id, x),
        keeps_records(staged.spec_update_node(node), staged),
        lookup(staged.spec_update_node(node).update_nodes, node.id) is Some,
        staged.spec_update_node(node).entry_edges == staged.entry_edges,
        staged.spec_update_node(node).new_nodes == staged.new_nodes,
{
    reveal(records_in_place);
    let after = staged.spec_update_node(node);
    let record = match lookup(staged.update_nodes, node.id) {
        Some(existing) => existing.spec_merge(node),
        None => node,
    };
    if lookup(staged.update_nodes, node.id) is Some {
        assert(update_in_place(graph, node.id, lookup(staged.update_nodes, node.id)->0));
    }
    assert(after.update_nodes == put(staged.update_nodes, node.id, record));
    lemma_put_keeps_unique(staged.update_nodes, node.id, record);
    lemma_lookup_put_same(staged.update_nodes, node.id, record);
    assert forall|id: Uid| id != node.id implies lookup(after.update_nodes, id) == lookup(
        staged.update_nodes,
        id,
    ) by {
        lemma_lookup_put_other(staged.update_nodes, node.id, record, id);
    }
    assert forall|id: Uid, x: EdgeDescriptor<EV>| #[trigger]
        staged_adds(after, id, x) <==> staged_adds(staged, id, x) by {
        if id != node.id {
            assert(lookup(after.update_nodes, id) == lookup(staged.update_nodes, id));
        } else if lookup(staged.update_nodes, node.id) is None {
            assert(!items_of(node.add_edges).contains(x));
        }
    }
    assert forall|id: Uid| #[trigger]
        lookup(after.update_nodes, id) is Some implies update_in_place(
        graph,
        id,
        lookup(after.update_nodes, id)->0,
    ) by {
        if id != node.id {
            assert(lookup(after.update_nodes, id) == lookup(staged.update_nodes, id));
            assert(update_in_place(graph, id, lookup(staged.update_nodes, id)->0));
        }
    }
    assert forall|id: Uid| lookup(staged.update_nodes, id) is Some implies #[trigger] lookup(
        after.update_nodes,
        id,
    ) is Some by {
        if id != node.id {
            assert(lookup(after.update_nodes, id) == lookup(staged.update_nodes, id));
        }
    }
    assert forall|e: EdgeDescriptor<EV>| stages(staged, e) implies #[trigger] stages(after, e) by {
        if e.host != node.id {
            assert(lookup(after.update_nodes, e.host) == lookup(staged.update_nodes, e.host));
        } else {
            assert(staged_adds(staged, e.host, e));
            assert(staged_adds(after, e.host, e));
            if lookup(after.new_nodes, e.host) is Some {
                assert(new_in_place(graph, e.host, lookup(after.new_nodes, e.host)->0));
            }
        }
    }
}

/// An alias changes nothing of what is staged for the nodes.
pub proof fn lemma_alias_stages<TV, EV, AV>(
    staged: BuildBlueprintView<TV, EV>,
    graph: GraphView<TV, EV, AV>,
    temp: Option<Uid>,
    id: Uid,
)
    requires
        paired(staged, graph),
    ensures
        paired(staged.spec_alias(temp, id), graph),
        keeps_records(staged.spec_alias(temp, id), staged),
        staged.spec_alias(temp, id).new_nodes == staged.new_nodes,
        staged.spec_alias(temp, id).update_nodes == staged.update_nodes,
        staged.spec_alias(temp, id).entry_edges == staged.entry_edges,
{
    let after = staged.spec_alias(temp, id);
    assert(after.new_nodes == staged.new_nodes && after.update_nodes == staged.update_nodes
        && after.entry_edges == staged.entry_edges);
    assert(records_in_place(after, graph)) by {
        reveal(records_in_place);
    }
    assert(mirrored_staging(after)) by {
        reveal(mirrored_staging);
        assert forall|x: Uid, e: EdgeDescriptor<EV>| #[trigger]
            staged_adds(after, x, e) implies e.host == x && staged_adds(
            after,
            e.target,
            e.spec_invert(),
        ) by {
            assert(staged_adds(staged, x, e));
            assert(staged_adds(staged, e.target, e.spec_invert()));
        }
    }
    assert(entries_staged(after)) by {
        reveal(entries_staged);
        assert forall|e: EdgeDescriptor<EV>| #[trigger]
            after.entry_edges.contains(e) implies stages(after, e) by {
            assert(stages(staged, e));
        }
    }
}

/// Nothing staged comes in pairs.
pub proof fn law_nothing_staged_is_paired<TV, EV, AV>(default_data: TV, graph: GraphView<TV, EV, AV>)
    ensures
        paired(BuildBlueprintView::<TV, EV>::blank(default_data), graph),
        only_adds(BuildBlueprintView::<TV, EV>::blank(default_data)),
{
    reveal(records_in_place);
    reveal(mirrored_staging);
    reveal(entries_staged);
    let blank = BuildBlueprintView::<TV, EV>::blank(default_data);
    assert(crate::collections::seq_model::keys_of(blank.new_nodes) =~= Seq::empty());
    assert(crate::collections::seq_model::keys_of(blank.update_nodes) =~= Seq::empty());
}

/// Staging the record of a handle to a new node, for a node that the graph
/// does not hold, keeps a transaction paired. This is what starting with a
/// new node and setting its payload, label or alias stage.
pub proof fn law_new_node_keeps_pairing<TV, EV, AV>(
    staged: BuildBlueprintView<TV, EV>,
    graph: GraphView<TV, EV, AV>,
    node: NewNodeView<TV, EV>,
)
    requires
        paired(staged, graph),
        node.add_edges.len() == 0,
        graph.node(node.id) is None,
    ensures
        paired(staged.spec_add_node(node), graph),
        only_adds(staged) ==> only_adds(staged.spec_add_node(node)),
{
    lemma_add_node_stages(staged, graph, node);
    let after = staged.spec_add_node(node);
    assert(mirrored_staging(after)) by {
        reveal(mirrored_staging);
        assert forall|id: Uid, e: EdgeDescriptor<EV>| #[trigger]
            staged_adds(after, id, e) implies e.host == id && staged_adds(
            after,
            e.target,
            e.spec_invert(),
        ) by {
            assert(staged_adds(staged, id, e));
            assert(staged_adds(staged, e.target, e.spec_invert()));
        }
    }
    assert(entries_staged(after)) by {
        reveal(entries_staged);
    }
}

/// Staging the change of a handle to a node of the graph keeps a
/// transaction paired. This is what starting with a node of the graph and
/// replacing its payload or adding or removing a label stage.
pub proof fn law_update_node_keeps_pairing<TV, EV, AV>(
    staged: BuildBlueprintView<TV, EV>,
    graph: GraphView<TV, EV, AV>,
    node: UpdateNodeView<TV, EV>,
)
    requires
        paired(staged, graph),
        node.add_edges is None,
        node.remove_edges is None,
        graph.node(node.id) is Some,
    ensures
        paired(staged.spec_update_node(node), graph),
        only_adds(staged) ==> only_adds(staged.spec_update_node(node)),
{
    lemma_update_node_stages(staged, graph, node);
    let after = staged.spec_update_node(node);
    assert(mirrored_staging(after)) by {
        reveal(mirrored_staging);
        assert forall|id: Uid, e: EdgeDescriptor<EV>| #[trigger]
            staged_adds(after, id, e) implies e.host == id && staged_adds(
            after,
            e.target,
            e.spec_invert(),
        ) by {
            assert(staged_adds(staged, id, e));
            assert(staged_adds(staged, e.target, e.spec_invert()));
        }
    }
    assert(entries_staged(after)) by {
        reveal(entries_staged);
        assert forall|e: EdgeDescriptor<EV>| #[trigger]
            after.entry_edges.contains(e) implies stages(after, e) by {
            assert(stages(staged, e));
        }
    }
}

/// Wiring a new node, which the graph does not hold, to a host that has
/// its record keeps a transaction paired.
pub proof fn law_wire_new_keeps_pairing<TV, EV, AV>(
    staged: BuildBlueprintView<TV, EV>,
    graph: GraphView<TV, EV, AV>,
    host: Uid,
    child: NewNodeView<TV, EV>,
    dir: EdgeDir,
    edge_type: EV,
    host_is_new: bool,
)
    requires
        paired(staged, graph),
        child.add_edges.len() == 0,
        graph.node(child.id) is None,
        host_is_new ==> lookup(staged.new_nodes, host) is Some,
        !host_is_new ==> lookup(staged.update_nodes, host) is Some,
    ensures
        paired(staged.spec_wire_new(host, child, dir, edge_type, host_is_new), graph),
        only_adds(staged) ==> only_adds(
            staged.spec_wire_new(host, child, dir, edge_type, host_is_new),
        ),
{
    let edge = EdgeDescriptor { dir, edge_type, host, target: child.id, render_info: None };
    let aliased = staged.spec_alias(child.temp_id, child.id);
    lemma_alias_stages(staged, graph, child.temp_id, child.id);
    lemma_add_node_stages(aliased, graph, child);
    let with_child = aliased.spec_add_node(child);
    lemma_add_edge_stages(with_child, graph, edge.spec_invert(), true);
    let with_mirror = with_child.spec_add_edge(edge.spec_invert(), true);
    lemma_add_edge_stages(with_mirror, graph, edge, host_is_new);
    let with_both = with_mirror.spec_add_edge(edge, host_is_new);
    let after = staged.spec_wire_new(host, child, dir, edge_type, host_is_new);
    lemma_invert_involution(edge);
    assert(records_in_place(after, graph)) by {
        reveal(records_in_place);
    }
    assert(mirrored_staging(after)) by {
        reveal(mirrored_staging);
        assert forall|id: Uid, e: EdgeDescriptor<EV>| #[trigger]
            staged_adds(after, id, e) implies e.host == id && staged_adds(
            after,
            e.target,
            e.spec_invert(),
        ) by {
            assert(staged_adds(with_both, id, e));
            if staged_adds(aliased, id, e) {
                assert(staged_adds(staged, id, e));
                assert(staged_adds(staged, e.target, e.spec_invert()));
                assert(staged_adds(aliased, e.target, e.spec_invert()));
                assert(staged_adds(with_child, e.target, e.spec_invert()));
                assert(staged_adds(with_mirror, e.target, e.spec_invert()));
                assert(staged_adds(with_both, e.target, e.spec_invert()));
            } else {
                assert(staged_adds(with_child, id, e) <==> staged_adds(aliased, id, e));
                if e == edge {
                    assert(staged_adds(with_mirror, child.id, edge.spec_invert()));
                    assert(staged_adds(with_both, child.id, edge.spec_invert()));
                } else {
                    assert(e == edge.spec_invert());
                    assert(staged_adds(with_both, host, edge));
                }
            }
        }
    }
    assert(entries_staged(after)) by {
        reveal(entries_staged);
        assert forall|e: EdgeDescriptor<EV>| #[trigger]
            after.entry_edges.contains(e) implies stages(after, e) by {
            if !host_is_new {
                lemma_insert_members(with_both.entry_edges, edge, e);
            }
            if staged.entry_edges.contains(e) {
                assert(stages(staged, e));
                assert(stages(aliased, e));
                assert(stages(with_child, e));
                assert(stages(with_mirror, e));
                assert(stages(with_both, e));
            }
        }
    }
}

/// Wiring a node of the graph to a host that has its record keeps a
/// transaction paired.
pub proof fn law_wire_existing_keeps_pairing<TV, EV, AV>(
    staged: BuildBlueprintView<TV, EV>,
    graph: GraphView<TV, EV, AV>,
    host: Uid,
    other: UpdateNodeView<TV, EV>,
    dir: EdgeDir,
    edge_type: EV,
    host_is_new: bool,
)
    requires
        paired(staged, graph),
        other.add_edges is None,
        other.remove_edges is None,
        graph.node(other.id) is Some,
        host_is_new ==> lookup(staged.new_nodes, host) is Some,
        !host_is_new ==> lookup(staged.update_nodes, host) is Some,
    ensures
        paired(staged.spec_wire_existing(host, other, dir, edge_type, host_is_new), graph),
        only_adds(staged) ==> only_adds(
            staged.spec_wire_existing(host, other, dir, edge_type, host_is_new),
        ),
{
    let edge = EdgeDescriptor { dir, edge_type, host, target: other.id, render_info: None };
    lemma_update_node_stages(staged, graph, other);
    let with_other = staged.spec_update_node(other);
    lemma_add_edge_stages(with_other, graph, edge.spec_invert(), false);
    let with_mirror = with_other.spec_add_edge(edge.spec_invert(), false);
    lemma_add_edge_stages(with_mirror, graph, edge, host_is_new);
    let with_both = with_mirror.spec_add_edge(edge, host_is_new);
    let after = staged.spec_wire_existing(host, other, dir, edge_type, host_is_new);
    lemma_invert_involution(edge);
    assert(records_in_place(after, graph)) by {
        reveal(records_in_place);
    }
    assert(mirrored_staging(after)) by {
        reveal(mirrored_staging);
        assert forall|id: Uid, e: EdgeDescriptor<EV>| #[trigger]
            staged_adds(after, id, e) implies e.host == id && staged_adds(
            after,
            e.target,
            e.spec_invert(),
        ) by {
            assert(staged_adds(with_both, id, e));
            if staged_adds(staged, id, e) {
                assert(staged_adds(staged, e.target, e.spec_invert()));
                assert(staged_adds(with_other, e.target, e.spec_invert()));
                assert(staged_adds(with_mirror, e.target, e.spec_invert()));
                assert(staged_adds(with_both, e.target, e.spec_invert()));
            } else {
                assert(staged_adds(with_other, id, e) <==> staged_adds(staged, id, e));
                if e == edge {
                    assert(staged_adds(with_mirror, other.id, edge.spec_invert()));
                    assert(staged_adds(with_both, other.id, edge.spec_invert()));
                } else {
                    assert(e == edge.spec_invert());
                    assert(staged_adds(with_both, host, edge));
                }
            }
        }
    }
    assert(entries_staged(after)) by {
        reveal(entries_staged);
        assert forall|e: EdgeDescriptor<EV>| #[trigger]
            after.entry_edges.contains(e) implies stages(after, e) by {
            if host_is_new {
                lemma_insert_members(with_both.entry_edges, edge.spec_invert(), e);
            }
            assert(stages(with_mirror, edge.spec_invert()));
            assert(stages(with_both, edge.spec_invert()));
            if staged.entry_edges.contains(e) {
                assert(stages(staged, e));
                assert(stages(with_other, e));
                assert(stages(with_mirror, e));
                assert(stages(with_both, e));
            }
        }
    }
}

/// Giving a new node that has no edges yet another identifier, which the
/// graph does not hold, keeps a transaction paired; so does the alias that
/// is set anew with it, by `lemma_alias_stages`.
pub proof fn law_rekey_keeps_pairing<TV, EV, AV>(
    staged: BuildBlueprintView<TV, EV>,
    graph: GraphView<TV, EV, AV>,
    old_id: Uid,
    node: NewNodeView<TV, EV>,
)
    requires
        paired(staged, graph),
        lookup(staged.new_nodes, old_id) matches Some(record) ==> record.add_edges.len() == 0,
        node.add_edges.len() == 0,
        graph.node(node.id) is None,
    ensures
        paired(
            (BuildBlueprintView {
                new_nodes: crate::collections::seq_model::drop_key(staged.new_nodes, old_id),
                ..staged
            }).spec_add_node(node),
            graph,
        ),
        only_adds(staged) ==> only_adds(
            (BuildBlueprintView {
                new_nodes: crate::collections::seq_model::drop_key(staged.new_nodes, old_id),
                ..staged
            }).spec_add_node(node),
        ),
{
    let dropped = BuildBlueprintView {
        new_nodes: crate::collections::seq_model::drop_key(staged.new_nodes, old_id),
        ..staged
    };
    assert(unique_keys(staged.new_nodes)) by {
        reveal(records_in_place);
    }
    crate::collections::seq_facts::lemma_drop_keeps_unique(staged.new_nodes, old_id);
    crate::collections::seq_facts::lemma_lookup_drop_same(staged.new_nodes, old_id);
    assert forall|id: Uid| id != old_id implies lookup(dropped.new_nodes, id) == lookup(
        staged.new_nodes,
        id,
    ) by {
        crate::collections::seq_facts::lemma_lookup_drop_other(staged.new_nodes, old_id, id);
    }
    assert(records_in_place(dropped, graph)) by {
        reveal(records_in_place);
        assert forall|id: Uid| #[trigger] lookup(dropped.new_nodes, id) is Some implies new_in_place(
            graph,
            id,
            lookup(dropped.new_nodes, id)->0,
        ) by {
            assert(lookup(dropped.new_nodes, id) == lookup(staged.new_nodes, id));
            assert(new_in_place(graph, id, lookup(staged.new_nodes, id)->0));
        }
    }
    assert forall|id: Uid, e: EdgeDescriptor<EV>| #[trigger]
        staged_adds(dropped, id, e) <==> staged_adds(staged, id, e) by {
        if id != old_id {
            assert(lookup(dropped.new_nodes, id) == lookup(staged.new_nodes, id));
        } else if lookup(staged.new_nodes, old_id) is Some {
            assert(!lookup(staged.new_nodes, old_id)->0.add_edges.contains(e));
        }
    }
    assert(mirrored_staging(dropped)) by {
        reveal(mirrored_staging);
        assert forall|id: Uid, e: EdgeDescriptor<EV>| #[trigger]
            staged_adds(dropped, id, e) implies e.host == id && staged_adds(
            dropped,
            e.target,
            e.spec_invert(),
        ) by {
            assert(staged_adds(staged, id, e));
            assert(staged_adds(staged, e.target, e.spec_invert()));
        }
    }
    assert(entries_staged(dropped)) by {
        reveal(entries_staged);
        assert forall|e: EdgeDescriptor<EV>| #[trigger]
            dropped.entry_edges.contains(e) implies stages(dropped, e) by {
            assert(stages(staged, e));
        }
    }
    law_new_node_keeps_pairing(dropped, graph, node);
}

/// Staging an edge to an alias keeps a transaction paired: neither side of
/// the edge is staged before the alias is resolved.
pub proof fn law_wire_temp_keeps_pairing<TV, EV, AV>(
    staged: BuildBlueprintView<TV, EV>,
    graph: GraphView<TV, EV, AV>,
    host: Uid,
    dir: EdgeDir,
    edge_type: EV,
    temp_id: Uid,
    host_is_new: bool,
)
    requires
        paired(staged, graph),
    ensures
        paired(staged.spec_wire_temp(host, dir, edge_type, temp_id, host_is_new), graph),
        only_adds(staged) ==> only_adds(
            staged.spec_wire_temp(host, dir, edge_type, temp_id, host_is_new),
        ),
{
    let after = staged.spec_wire_temp(host, dir, edge_type, temp_id, host_is_new);
    assert(records_in_place(after, graph)) by {
        reveal(records_in_place);
    }
    assert(mirrored_staging(after)) by {
        reveal(mirrored_staging);
        assert forall|id: Uid, e: EdgeDescriptor<EV>| #[trigger]
            staged_adds(after, id, e) implies e.host == id && staged_adds(
            after,
            e.target,
            e.spec_invert(),
        ) by {
            assert(staged_adds(staged, id, e));
            assert(staged_adds(staged, e.target, e.spec_invert()));
        }
    }
    assert(entries_staged(after)) by {
        reveal(entries_staged);
        assert forall|e: EdgeDescriptor<EV>| #[trigger]
            after.entry_edges.contains(e) implies stages(after, e) by {
            assert(stages(staged, e));
        }
    }
}

} // verus!
