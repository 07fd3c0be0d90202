//! At most one render edge: however a transaction deletes, removes and
//! displaces, no node ends with two edges through which it is rendered.

use vstd::prelude::*;

use crate::blueprint::build_blueprint::{AllowedRenderEdgeSpecifier, BuildBlueprintView};
use crate::blueprint::finalize::Sealed;
use crate::blueprint::finalized_blueprint::FinalizedBlueprintView;
use crate::blueprint::finalized_update_node::FinalizedUpdateNodeView;
use crate::blueprint::new_node::{spec_find_more, NewNodeView};
use crate::blueprint::render::{
    rendered_through, spec_best, spec_first_new, spec_render_patterns, spec_settled,
    RenderSearchView,
};
use crate::collections::seq_facts::unique_keys;
use crate::collections::seq_model::{lemma_insert_members, lookup, union_seq, without};
use crate::common::{
    spec_invert_render, EdgeDescriptor, EdgeDir, EdgeFinderView, GraphErrorView, Uid,
};
use crate::graph::reactive_node::build_reactive_node::spec_extend;
use crate::graph::reactive_node::last_action::ActionData;
use crate::graph::reactive_node::read_reactive_node::NodeView;
use crate::graph::reactive_node::utils::spec_search_map;
use crate::graph::view_graph::GraphView;
use crate::laws::balance::{
    balanced, graph_holds, keeps_marks, keeps_removals, lemma_all_stay_severed,
    lemma_assign_balanced, lemma_choice_balanced, lemma_delete_all_balanced,
    lemma_graph_node_is_not_new, lemma_mark_both_balanced, lemma_mark_effects, lemma_more_marks,
    lemma_note_all_frame, lemma_pairs_are_balanced, lemma_release_balanced,
    lemma_removals_balanced, lemma_removals_errors, lemma_same_records_balanced,
    lemma_sealed_corresponds, marked, no_fewer_removals, records_keyed, takes,
    with_both_marked, with_mark,
};
use crate::laws::edges::lemma_listed_is_held;
use crate::laws::pairing::{
    aliases_staged, lemma_resolve_pairs, lemma_sealed_in_order, lemma_search_map_sound, listed,
    paired, plain_aliases, sealed_entries, staged_adds, unmarked_yet,
};
use crate::laws::render::{law_no_error_is_lost, lemma_seal_grows, renders_host};
use crate::laws::symmetry::{law_apply_pointwise, lemma_holds_after};

verus! {

/// Whether every edge that `after` stages as the render edge of its host is
/// staged so by `before`.
pub open spec fn no_new_render_edges<TV, EV>(
    after: BuildBlueprintView<TV, EV>,
    before: BuildBlueprintView<TV, EV>,
) -> bool {
    forall|t: Uid, e: EdgeDescriptor<EV>|
        #[trigger] staged_adds(after, t, e) && renders_host(e) ==> staged_adds(before, t, e)
}

/// Whether every node for which a render edge is staged is connected.
pub open spec fn rendered_are_connected<TV, EV>(
    staged: BuildBlueprintView<TV, EV>,
    connected: Set<Uid>,
) -> bool {
    forall|t: Uid, e: EdgeDescriptor<EV>|
        #[trigger] staged_adds(staged, t, e) && renders_host(e) ==> connected.contains(t)
}

/// Whether at most one render edge is staged for each node.
pub open spec fn rendered_once<TV, EV>(staged: BuildBlueprintView<TV, EV>) -> bool {
    forall|t: Uid, e: EdgeDescriptor<EV>, f: EdgeDescriptor<EV>|
        #![trigger staged_adds(staged, t, e), staged_adds(staged, t, f)]
        staged_adds(staged, t, e) && renders_host(e) && staged_adds(staged, t, f) && renders_host(f)
            ==> e == f
}

/// Whether, for each node other than `but` that is not marked for deletion
/// and for which a render edge is staged, the removal of every other
/// render edge that the graph holds on it is staged.
pub open spec fn others_taken_but<TV, EV, AV>(
    staged: BuildBlueprintView<TV, EV>,
    graph: GraphView<TV, EV, AV>,
    but: Option<Uid>,
) -> bool {
    forall|t: Uid, e: EdgeDescriptor<EV>, g: EdgeDescriptor<EV>|
        #![trigger staged_adds(staged, t, e), graph_holds(graph, t, g)]
        staged_adds(staged, t, e) && renders_host(e) && graph_holds(graph, t, g) && renders_host(g)
            && g != e && !marked(staged, t) && but != Some(t) ==> takes(staged, t, g)
}

/// Whether what is staged leaves every node with at most one render edge:
/// a render edge is staged only for connected nodes, at most one for each,
/// and with it the removal of every other render edge of the node.
pub open spec fn single<TV, EV, AV>(
    staged: BuildBlueprintView<TV, EV>,
    graph: GraphView<TV, EV, AV>,
    connected: Set<Uid>,
) -> bool {
    &&& rendered_are_connected(staged, connected)
    &&& rendered_once(staged)
    &&& others_taken_but(staged, graph, None)
}

/// A step that stages no new render edge, and keeps marks and removals,
/// keeps every node with at most one render edge.
pub proof fn lemma_keeps_single<TV, EV, AV>(
    before: BuildBlueprintView<TV, EV>,
    after: BuildBlueprintView<TV, EV>,
    graph: GraphView<TV, EV, AV>,
    connected: Set<Uid>,
    wider: Set<Uid>,
)
    requires
        single(before, graph, connected),
        connected.subset_of(wider),
        keeps_marks(after, before),
        keeps_removals(after, before),
        no_new_render_edges(after, before),
    ensures
        single(after, graph, wider),
{
    assert forall|t: Uid, e: EdgeDescriptor<EV>|
        #[trigger] staged_adds(after, t, e) && renders_host(e) implies wider.contains(t) by {
        assert(staged_adds(before, t, e));
    }
    assert forall|t: Uid, e: EdgeDescriptor<EV>, f: EdgeDescriptor<EV>|
        #![trigger staged_adds(after, t, e), staged_adds(after, t, f)]
        staged_adds(after, t, e) && renders_host(e) && staged_adds(after, t, f) && renders_host(
            f,
        ) implies e == f by {
        assert(staged_adds(before, t, e));
        assert(staged_adds(before, t, f));
    }
    assert forall|t: Uid, e: EdgeDescriptor<EV>, g: EdgeDescriptor<EV>|
        #![trigger staged_adds(after, t, e), graph_holds(graph, t, g)]
        staged_adds(after, t, e) && renders_host(e) && graph_holds(graph, t, g) && renders_host(g)
            && g != e && !marked(after, t) implies takes(after, t, g) by {
        assert(staged_adds(before, t, e));
        assert(!marked(before, t));
        assert(takes(before, t, g));
    }
}

/// A search for every match adds each matching edge of the list to what
/// was found.
pub proof fn lemma_find_more_complete<EV>(
    init: Seq<EdgeDescriptor<EV>>,
    edges: Seq<EdgeDescriptor<EV>>,
    finder: EdgeFinderView<EV>,
    e: EdgeDescriptor<EV>,
)
    requires
        finder.wants_all(),
    ensures
        init.contains(e) || (edges.contains(e) && finder.spec_matches(e)) ==> spec_find_more(
            init,
            edges,
            finder,
        ).contains(e),
    decreases edges.len(),
{
    if edges.len() > 0 {
        lemma_find_more_complete(init, edges.drop_last(), finder, e);
        let found = spec_find_more(init, edges.drop_last(), finder);
        lemma_insert_members(found, edges.last(), e);
        if edges.contains(e) {
            let j = choose|j: int| 0 <= j < edges.len() && edges[j] == e;
            if j < edges.len() - 1 {
                assert(edges.drop_last()[j] == e);
            }
        }
    }
}

/// A search for every match through the lists of a map adds each matching
/// edge of the lists to what was found.
pub proof fn lemma_search_map_complete<EV>(
    found: Seq<EdgeDescriptor<EV>>,
    map: Seq<(EV, Seq<EdgeDescriptor<EV>>)>,
    finder: EdgeFinderView<EV>,
    e: EdgeDescriptor<EV>,
)
    requires
        finder.wants_all(),
    ensures
        found.contains(e) || (listed(map, e) && finder.spec_matches(e)) ==> spec_search_map(
            found,
            map,
            finder,
        ).contains(e),
    decreases map.len(),
{
    if map.len() > 0 {
        lemma_find_more_complete(found, map[0].1, finder, e);
        let next = spec_find_more(found, map[0].1, finder);
        lemma_search_map_complete(next, map.skip(1), finder, e);
        if listed(map, e) {
            let i = choose|i: int| 0 <= i < map.len() && (#[trigger] map[i]).1.contains(e);
            if i > 0 {
                assert(map.skip(1)[i - 1].1.contains(e));
                assert(listed(map.skip(1), e));
            }
        }
    } else {
        assert(!listed(map, e));
    }
}

/// The search for the render edges of a node in order finds exactly the
/// edges that the node holds and through which it is rendered.
pub proof fn lemma_render_edges_found<TV, EV, AV>(node: NodeView<TV, EV, AV>, g: EdgeDescriptor<EV>)
    requires
        node.in_order(),
    ensures
        node.holds(g) && renders_host(g) <==> node.spec_search_for_edge(rendered_through()) is Some
            && node.spec_search_for_edge(rendered_through())->0.contains(g),
{
    let finder = rendered_through::<EV>();
    let incoming = node.spec_found_incoming(finder);
    lemma_listed_is_held(node.incoming_edges, EdgeDir::Recv, g);
    lemma_listed_is_held(node.outgoing_edges, EdgeDir::Emit, g);
    lemma_search_map_complete(Seq::empty(), node.incoming_edges, finder, g);
    lemma_search_map_complete(incoming, node.outgoing_edges, finder, g);
    lemma_search_map_sound(Seq::empty(), node.incoming_edges, finder, g);
    lemma_search_map_sound(incoming, node.outgoing_edges, finder, g);
    assert(!Seq::<EdgeDescriptor<EV>>::empty().contains(g));
    let both = spec_search_map(incoming, node.outgoing_edges, finder);
    if both.contains(g) {
        assert(both.len() > 0);
    }
}

/// Releasing a node of the graph from some of its render edges stages no
/// new render edge, keeps every removal, and stages the removal of each of
/// the edges but the one to keep.
pub proof fn lemma_release_each_takes<TV, EV, AV>(
    staged: BuildBlueprintView<TV, EV>,
    graph: GraphView<TV, EV, AV>,
    t: Uid,
    olds: Seq<EdgeDescriptor<EV>>,
    keep: EdgeDescriptor<EV>,
)
    requires
        balanced(staged, graph),
        graph.in_order(),
        graph.symmetric(),
        forall|g: EdgeDescriptor<EV>| #[trigger]
            olds.contains(g) ==> graph_holds(graph, t, g) && renders_host(g),
        forall|e: EdgeDescriptor<EV>|
            #[trigger] staged_adds(staged, t, e) && renders_host(e) ==> e == keep,
    ensures
        no_new_render_edges(staged.spec_release_each(olds, keep), staged),
        no_fewer_removals(staged.spec_release_each(olds, keep), staged),
        staged.spec_release_each(olds, keep).delete_nodes == staged.delete_nodes,
        forall|g: EdgeDescriptor<EV>| #[trigger]
            olds.contains(g) && g != keep ==> takes(staged.spec_release_each(olds, keep), t, g),
        renders_host(keep) && staged_adds(staged, t, keep) ==> staged_adds(
            staged.spec_release_each(olds, keep),
            t,
            keep,
        ),
        renders_host(keep) && !takes(staged, t, keep) ==> !takes(
            staged.spec_release_each(olds, keep),
            t,
            keep,
        ),
    decreases olds.len(),
{
    if olds.len() > 0 {
        let old = olds[0];
        assert(olds.contains(old));
        assert(graph_holds(graph, t, old));
        assert(old.host == t && graph.node(old.target) is Some);
        let first = if old == keep || staged.spec_takes(old) {
            staged
        } else {
            staged.spec_unmark(old)
        };
        if old != keep && !staged.spec_takes(old) {
            lemma_graph_node_is_not_new(staged, graph, old.host);
            lemma_graph_node_is_not_new(staged, graph, old.target);
            lemma_mark_effects(staged, graph, old, None);
            let half = with_mark(staged, old, None);
            lemma_mark_effects(half, graph, old.spec_invert(), None);
            lemma_mark_both_balanced(staged, graph, old, None);
            assert(spec_invert_render(None) == None::<EdgeDir>);
            assert(first == with_both_marked(staged, old, None));
            assert(!staged_adds(staged, t, old));
            assert(takes(half, t, old));
            assert(takes(first, t, old));
            if renders_host(keep) {
                assert(!renders_host(old.spec_invert()));
                if staged_adds(staged, t, keep) {
                    assert(staged_adds(half, t, keep));
                    assert(staged_adds(first, t, keep));
                }
                if !takes(staged, t, keep) {
                    assert(!takes(half, t, keep));
                    assert(!takes(first, t, keep));
                }
            }
            assert forall|n: Uid, e: EdgeDescriptor<EV>|
                #[trigger] staged_adds(first, n, e) && renders_host(e) implies staged_adds(
                staged,
                n,
                e,
            ) by {
                assert(staged_adds(half, n, e));
            }
        }
        if staged.spec_takes(old) {
            assert(takes(staged, old.host, old));
        }
        assert(takes(first, t, old) || old == keep);
        assert forall|g: EdgeDescriptor<EV>| #[trigger] olds.skip(1).contains(g) implies graph_holds(
            graph,
            t,
            g,
        ) && renders_host(g) by {
            let j = choose|j: int| 0 <= j < olds.skip(1).len() && olds.skip(1)[j] == g;
            assert(olds[j + 1] == g);
            assert(olds.contains(g));
        }
        lemma_release_each_takes(first, graph, t, olds.skip(1), keep);
        let last = staged.spec_release_each(olds, keep);
        assert forall|n: Uid, e: EdgeDescriptor<EV>|
            #[trigger] staged_adds(last, n, e) && renders_host(e) implies staged_adds(
            staged,
            n,
            e,
        ) by {
            assert(staged_adds(first, n, e));
        }
        assert forall|n: Uid, e: EdgeDescriptor<EV>| #[trigger] takes(staged, n, e) implies takes(
            last,
            n,
            e,
        ) by {
            assert(takes(first, n, e));
        }
        assert forall|g: EdgeDescriptor<EV>| #[trigger] olds.contains(g) && g != keep implies takes(
            last,
            t,
            g,
        ) by {
            let j = choose|j: int| 0 <= j < olds.len() && olds[j] == g;
            if j == 0 {
                assert(takes(first, t, g));
            } else {
                assert(olds.skip(1)[j - 1] == g);
                assert(olds.skip(1).contains(g));
            }
        }
    }
}

/// Settling a candidate keeps the balance and every removal, touches no
/// mark or error, and keeps every node with at most one render edge.
pub proof fn lemma_settle_single<TV, EV, AV>(
    staged: BuildBlueprintView<TV, EV>,
    search: RenderSearchView<TV, EV>,
    graph: GraphView<TV, EV, AV>,
    connection: EdgeDescriptor<EV>,
)
    requires
        balanced(staged, graph),
        graph.in_order(),
        graph.symmetric(),
        single(staged, graph, search.connected),
    ensures
        balanced(staged.spec_settle(search, graph.nodes, connection), graph),
        single(
            staged.spec_settle(search, graph.nodes, connection),
            graph,
            spec_settled(search, connection).connected,
        ),
        staged.spec_settle(search, graph.nodes, connection).errors == staged.errors,
        staged.spec_settle(search, graph.nodes, connection).delete_nodes == staged.delete_nodes,
        no_fewer_removals(staged.spec_settle(search, graph.nodes, connection), staged),
{
    let after = staged.spec_settle(search, graph.nodes, connection);
    let next = spec_settled(search, connection);
    let t = connection.target;
    assert(search.connected.subset_of(next.connected));
    if after == staged {
        lemma_keeps_single(staged, staged, graph, search.connected, next.connected);
    } else {
        let assigned = staged.spec_assign(graph.nodes, connection);
        assert(after == assigned.spec_release(graph.nodes, connection));
        assert(!search.connected.contains(t));
        assert(next.connected == search.connected.insert(t));
        lemma_assign_balanced(staged, graph, connection);
        lemma_release_balanced(assigned, graph, connection);
        let mirror = connection.spec_invert();
        let keep = mirror.spec_with_render(Some(EdgeDir::Recv));
        assert forall|e: EdgeDescriptor<EV>| !(#[trigger] staged_adds(staged, t, e) && renders_host(
            e,
        )) by {}
        // What is staged once the connection is assigned.
        assert(rendered_are_connected(assigned, next.connected) && rendered_once(assigned)
            && others_taken_but(assigned, graph, Some(t)) && (forall|e: EdgeDescriptor<EV>|
            #[trigger] staged_adds(assigned, t, e) && renders_host(e) ==> e == keep)) by {
            if assigned != staged {
                let half = with_mark(staged, connection, Some(EdgeDir::Emit));
                lemma_mark_effects(staged, graph, connection, Some(EdgeDir::Emit));
                lemma_mark_effects(half, graph, mirror, Some(EdgeDir::Recv));
                assert(spec_invert_render(Some(EdgeDir::Emit)) == Some(EdgeDir::Recv));
                assert(assigned == with_mark(half, mirror, Some(EdgeDir::Recv)));
                assert(!renders_host(connection.spec_with_render(Some(EdgeDir::Emit))));
                assert forall|n: Uid, e: EdgeDescriptor<EV>|
                    #[trigger] staged_adds(assigned, n, e) && renders_host(e) implies (n == t && e
                    == keep) || staged_adds(staged, n, e) by {
                    if !(n == t && e == keep) {
                        assert(staged_adds(half, n, e));
                    }
                }
                assert forall|n: Uid, e: EdgeDescriptor<EV>, g: EdgeDescriptor<EV>|
                    #![trigger staged_adds(assigned, n, e), graph_holds(graph, n, g)]
                    staged_adds(assigned, n, e) && renders_host(e) && graph_holds(graph, n, g)
                        && renders_host(g) && g != e && !marked(assigned, n) && Some(t) != Some(
                        n,
                    ) implies takes(assigned, n, g) by {
                    assert(staged_adds(staged, n, e));
                    assert(takes(staged, n, g));
                    assert(takes(half, n, g));
                }
                assert forall|n: Uid, e: EdgeDescriptor<EV>, f: EdgeDescriptor<EV>|
                    #![trigger staged_adds(assigned, n, e), staged_adds(assigned, n, f)]
                    staged_adds(assigned, n, e) && renders_host(e) && staged_adds(assigned, n, f)
                        && renders_host(f) implies e == f by {
                    if n != t {
                        assert(staged_adds(staged, n, e));
                        assert(staged_adds(staged, n, f));
                    }
                }
            }
        }
        // What is staged once the target is released.
        match graph.node(t) {
            None => {
                assert(after == assigned);
            },
            Some(node) => {
                match node.spec_search_for_edge(rendered_through()) {
                    None => {
                        assert(after == assigned);
                    },
                    Some(olds) => {
                        assert forall|g: EdgeDescriptor<EV>| #[trigger]
                            olds.contains(g) implies graph_holds(graph, t, g) && renders_host(
                            g,
                        ) by {
                            lemma_render_edges_found(node, g);
                        }
                        lemma_release_each_takes(assigned, graph, t, olds, keep);
                    },
                }
            },
        }
        assert(no_new_render_edges(after, assigned));
        assert(no_fewer_removals(after, assigned));
        assert forall|n: Uid, e: EdgeDescriptor<EV>|
            #[trigger] staged_adds(after, n, e) && renders_host(e) implies next.connected.contains(
            n,
        ) by {
            assert(staged_adds(assigned, n, e));
        }
        assert forall|n: Uid, e: EdgeDescriptor<EV>, f: EdgeDescriptor<EV>|
            #![trigger staged_adds(after, n, e), staged_adds(after, n, f)]
            staged_adds(after, n, e) && renders_host(e) && staged_adds(after, n, f) && renders_host(
                f,
            ) implies e == f by {
            assert(staged_adds(assigned, n, e));
            assert(staged_adds(assigned, n, f));
        }
        assert forall|n: Uid, e: EdgeDescriptor<EV>, g: EdgeDescriptor<EV>|
            #![trigger staged_adds(after, n, e), graph_holds(graph, n, g)]
            staged_adds(after, n, e) && renders_host(e) && graph_holds(graph, n, g) && renders_host(
                g,
            ) && g != e && !marked(after, n) implies takes(after, n, g) by {
            assert(staged_adds(assigned, n, e));
            if n == t {
                assert(e == keep);
                lemma_render_edges_found(graph.node(t)->0, g);
            } else {
                assert(takes(assigned, n, g));
            }
        }
        assert forall|n: Uid, e: EdgeDescriptor<EV>| #[trigger] takes(staged, n, e) implies takes(
            after,
            n,
            e,
        ) by {
            assert(takes(assigned, n, e));
        }
    }
}

/// Offering edges leaves the connected nodes as they are.
pub proof fn lemma_offer_all_connected<TV, EV>(
    search: RenderSearchView<TV, EV>,
    patterns: Seq<EdgeFinderView<EV>>,
    edges: Seq<EdgeDescriptor<EV>>,
)
    ensures
        search.spec_offer_all(patterns, edges).connected == search.connected,
    decreases edges.len(),
{
    if edges.len() > 0 {
        lemma_offer_all_connected(search.spec_offer(patterns, edges[0]), patterns, edges.skip(1));
    }
}

/// Offering the edges of nodes leaves the connected nodes as they are.
pub proof fn lemma_expand_connected<TV, EV>(
    search: RenderSearchView<TV, EV>,
    patterns: Seq<EdgeFinderView<EV>>,
    nodes: Seq<NewNodeView<TV, EV>>,
)
    ensures
        search.spec_expand(patterns, nodes).connected == search.connected,
    decreases nodes.len(),
{
    if nodes.len() > 0 {
        lemma_offer_all_connected(search, patterns, nodes[0].add_edges);
        lemma_expand_connected(
            search.spec_offer_all(patterns, nodes[0].add_edges),
            patterns,
            nodes.skip(1),
        );
    }
}

/// The rounds of the search add an error, or leave at most one render edge
/// staged for each node, and with it the removal of every other render
/// edge of the node.
pub proof fn lemma_rounds_single<TV, EV, AV>(
    staged: BuildBlueprintView<TV, EV>,
    search: RenderSearchView<TV, EV>,
    graph: GraphView<TV, EV, AV>,
    patterns: Seq<EdgeFinderView<EV>>,
    fuel: nat,
)
    requires
        balanced(staged, graph),
        graph.in_order(),
        graph.symmetric(),
        single(staged, graph, search.connected),
    ensures
        staged.spec_render_rounds(search, graph.nodes, patterns, fuel).errors.len()
            == staged.errors.len() ==> {
            &&& rendered_once(staged.spec_render_rounds(search, graph.nodes, patterns, fuel))
            &&& others_taken_but(
                staged.spec_render_rounds(search, graph.nodes, patterns, fuel),
                graph,
                None,
            )
        },
    decreases fuel,
{
    if search.remaining.len() == 0 {
    } else if fuel == 0 {
    } else {
        let cleared = RenderSearchView { newly_connected: Seq::<NewNodeView<TV, EV>>::empty(), ..search };
        lemma_expand_connected(cleared, patterns, search.newly_connected);
        let offered = search.spec_expanded(patterns);
        assert(offered.connected == search.connected);
        if offered.candidates.len() == 0 {
            match spec_first_new(staged.new_nodes, offered.remaining) {
                Some(id) => {},
                None => {
                    let more = BuildBlueprintView {
                        delete_nodes: union_seq(staged.delete_nodes, offered.remaining),
                        ..staged
                    };
                    lemma_more_marks(staged, graph, offered.remaining);
                    crate::collections::seq_model::lemma_union_members(
                        staged.delete_nodes,
                        offered.remaining,
                    );
                    assert(keeps_marks(more, staged));
                    assert(keeps_removals(more, staged));
                    assert(no_new_render_edges(more, staged));
                    lemma_keeps_single(staged, more, graph, search.connected, search.connected);
                    lemma_delete_all_balanced(more, graph);
                    let last = more.spec_finalize_delete_nodes(graph.nodes);
                    if last.errors.len() == more.errors.len() {
                        assert(keeps_marks(last, more));
                        assert(no_new_render_edges(last, more)) by {
                            assert forall|t: Uid, e: EdgeDescriptor<EV>|
                                #[trigger] staged_adds(last, t, e) && renders_host(
                                    e,
                                ) implies staged_adds(more, t, e) by {}
                        }
                        lemma_keeps_single(more, last, graph, search.connected, search.connected);
                    }
                },
            }
        } else {
            let taken = offered.candidates[spec_best(offered.candidates)];
            let left = RenderSearchView { candidates: without(offered.candidates, taken), ..offered };
            lemma_settle_single(staged, left, graph, taken.1);
            let settled = staged.spec_settle(left, graph.nodes, taken.1);
            crate::laws::cascade::lemma_rounds_carry(
                settled,
                spec_settled(left, taken.1),
                graph.nodes,
                patterns,
                (fuel - 1) as nat,
            );
            lemma_rounds_single(
                settled,
                spec_settled(left, taken.1),
                graph,
                patterns,
                (fuel - 1) as nat,
            );
        }
    }
}

/// Where no staged edge renders its host, the choice of render edges adds
/// an error, or leaves at most one render edge staged for each node, and
/// with it the removal of every other render edge of the node.
pub proof fn lemma_choice_single<TV, EV, AV>(
    staged: BuildBlueprintView<TV, EV>,
    graph: GraphView<TV, EV, AV>,
    patterns: Seq<EdgeFinderView<EV>>,
    entry_point: Option<Uid>,
)
    requires
        balanced(staged, graph),
        graph.in_order(),
        graph.symmetric(),
        unmarked_yet(staged),
    ensures
        staged.spec_set_render_edges(graph.nodes, patterns, entry_point).errors.len()
            == staged.errors.len() ==> {
            &&& rendered_once(staged.spec_set_render_edges(graph.nodes, patterns, entry_point))
            &&& others_taken_but(
                staged.spec_set_render_edges(graph.nodes, patterns, entry_point),
                graph,
                None,
            )
        },
{
    let begin = RenderSearchView::begin(spec_extend(staged.new_nodes, staged.displaced_nodes));
    match entry_point {
        Some(temp) => {
            if staged.temp_id_map.dom().contains(temp) {
                let root = staged.temp_id_map[temp];
                match lookup(begin.uncertain, root) {
                    None => {},
                    Some(node) => {
                        if node.spec_render_edge() is None {
                            let started = begin.spec_connect(root, node);
                            assert(single(staged, graph, started.connected));
                            lemma_rounds_single(staged, started, graph, patterns, usize::MAX as nat);
                        }
                    },
                }
            }
        },
        None => {
            let seeded = begin.spec_offer_all(patterns, staged.entry_edges).spec_offer_all(
                patterns,
                staged.displaced_entry_edges,
            );
            assert(single(staged, graph, seeded.connected));
            lemma_rounds_single(staged, seeded, graph, patterns, usize::MAX as nat);
        },
    }
}

/// Whether every node of the graph holds at most one edge through which it
/// is rendered.
pub open spec fn singly_rendered<TV, EV, AV>(graph: GraphView<TV, EV, AV>) -> bool {
    forall|id: Uid, e: EdgeDescriptor<EV>, f: EdgeDescriptor<EV>|
        #![trigger graph_holds(graph, id, e), graph_holds(graph, id, f)]
        graph_holds(graph, id, e) && renders_host(e) && graph_holds(graph, id, f) && renders_host(f)
            ==> e == f
}

/// A transaction staged in pairs in which no staged edge renders its host,
/// finalized with success and applied to a graph in order in which every
/// edge has its mirror and every node at most one render edge, leaves a
/// graph in which every node has at most one render edge, whatever it
/// deletes, removes and displaces.
pub proof fn law_finalizing_keeps_render_uniqueness<TV, EV, AV>(
    staged: BuildBlueprintView<TV, EV>,
    graph: GraphView<TV, EV, AV>,
    specifiers: Option<Seq<AllowedRenderEdgeSpecifier<EV>>>,
    entry_point: Option<Uid>,
    sealed: FinalizedBlueprintView<TV, EV>,
    action: ActionData<AV>,
    applied: GraphView<TV, EV, AV>,
)
    requires
        graph.in_order(),
        graph.symmetric(),
        singly_rendered(graph),
        paired(staged, graph),
        aliases_staged(staged, staged.temp_edges),
        unmarked_yet(staged),
        plain_aliases(staged.temp_edges),
        staged.spec_finalize(graph.nodes, specifiers, entry_point) == Ok::<
            FinalizedBlueprintView<TV, EV>,
            Seq<GraphErrorView>,
        >(sealed),
        graph.spec_apply(sealed, action) == Ok::<GraphView<TV, EV, AV>, GraphErrorView>(applied),
    ensures
        applied.in_order(),
        singly_rendered(applied),
{
    let patterns = spec_render_patterns(specifiers);
    let resolved = staged.spec_update_temp_ids();
    let deleted = resolved.spec_finalize_delete_nodes(graph.nodes);
    let removed = deleted.spec_finalize_removed_edges(graph.nodes);
    let cascaded = staged.spec_cascaded(graph.nodes);
    let chosen = cascaded.spec_set_render_edges(graph.nodes, patterns, entry_point);
    let start = Sealed::<TV, EV> { updates: Seq::empty(), errors: chosen.errors };
    lemma_seal_grows(start, graph.nodes, chosen.update_nodes);
    assert(chosen.errors.len() == 0);
    law_no_error_is_lost(cascaded, graph.nodes, patterns, entry_point);
    // No error on the way.
    lemma_resolve_pairs(staged, graph, staged.temp_edges);
    crate::laws::cascade::lemma_delete_each_carries(
        resolved,
        graph.nodes,
        resolved.delete_nodes,
        graph.nodes.len(),
    );
    lemma_removals_errors(deleted, graph.nodes, deleted.remove_edge_finders, graph.nodes.len());
    lemma_note_all_frame(removed, graph.nodes, removed.displaced_nodes);
    assert(cascaded == removed.spec_find_potential_entries(graph.nodes).spec_hold_back_entries());
    assert(resolved.errors.len() == 0 && deleted.errors.len() == 0 && removed.errors.len() == 0);
    // What is staged once deletions and removals are carried through.
    lemma_pairs_are_balanced(resolved, graph);
    lemma_delete_all_balanced(resolved, graph);
    lemma_removals_balanced(deleted, graph, deleted.remove_edge_finders, graph.nodes.len());
    assert(keeps_removals(removed, deleted));
    lemma_all_stay_severed(deleted, removed, graph);
    lemma_same_records_balanced(removed, cascaded, graph);
    assert(keeps_removals(cascaded, removed));
    lemma_all_stay_severed(removed, cascaded, graph);
    assert(unmarked_yet(cascaded)) by {
        assert forall|id: Uid, e: EdgeDescriptor<EV>| #[trigger]
            staged_adds(cascaded, id, e) implies !renders_host(e) by {
            assert(staged_adds(removed, id, e));
            assert(staged_adds(deleted, id, e));
            assert(staged_adds(resolved, id, e));
        }
    }
    // What is staged once the render edges are chosen.
    lemma_choice_balanced(cascaded, graph, patterns, entry_point);
    lemma_choice_single(cascaded, graph, patterns, entry_point);
    assert(unique_keys(chosen.update_nodes)) by {
        reveal(records_keyed);
    }
    lemma_sealed_in_order(start, graph.nodes, chosen.update_nodes);
    assert(Seq::<(Uid, FinalizedUpdateNodeView<TV, EV>)>::empty() + sealed_entries(
        graph.nodes,
        chosen.update_nodes,
    ) =~= sealed_entries(graph.nodes, chosen.update_nodes));
    lemma_sealed_corresponds(chosen, graph, sealed, action);
    law_apply_pointwise(graph, sealed, action, applied);
    assert forall|id: Uid, e: EdgeDescriptor<EV>, f: EdgeDescriptor<EV>|
        #![trigger graph_holds(applied, id, e), graph_holds(applied, id, f)]
        graph_holds(applied, id, e) && renders_host(e) && graph_holds(applied, id, f)
            && renders_host(f) implies e == f by {
        lemma_holds_after(graph, sealed, action, id, e);
        lemma_holds_after(graph, sealed, action, id, f);
        assert(applied.node(id) == sealed.node_after(graph, action, id));
        let kept_e = graph_holds(graph, id, e) && !sealed.removes(id, e);
        let kept_f = graph_holds(graph, id, f) && !sealed.removes(id, f);
        if sealed.adds(id, e) && sealed.adds(id, f) {
            assert(staged_adds(chosen, id, e) && staged_adds(chosen, id, f));
        } else if sealed.adds(id, e) {
            assert(kept_f);
            assert(staged_adds(chosen, id, e));
            if f != e {
                assert(takes(chosen, id, f));
                assert(staged_adds(chosen, id, f));
            }
        } else if sealed.adds(id, f) {
            assert(kept_e);
            assert(staged_adds(chosen, id, f));
            if f != e {
                assert(takes(chosen, id, e));
                assert(staged_adds(chosen, id, e));
            }
        } else {
            assert(kept_e && kept_f);
        }
    }
}

/// Where a node in order is found to hold the edge of `connection` as a
/// render edge, it holds that edge with the mark of a render edge.
pub proof fn lemma_held_is_marked<TV, EV, AV>(
    node: NodeView<TV, EV, AV>,
    connection: EdgeDescriptor<EV>,
)
    requires
        node.in_order(),
        node.spec_search_for_edge(crate::blueprint::render::rendering_pattern(connection)) is Some,
    ensures
        node.holds(connection.spec_with_render(Some(EdgeDir::Emit))),
{
    let finder = crate::blueprint::render::rendering_pattern(connection);
    let found = node.spec_search_for_edge(finder)->0;
    let e = found[0];
    assert(found.contains(e));
    crate::laws::balance::lemma_found_is_held(node, finder, e);
    let incoming = node.spec_found_incoming(finder);
    lemma_search_map_sound(Seq::empty(), node.incoming_edges, finder, e);
    lemma_search_map_sound(incoming, node.outgoing_edges, finder, e);
    assert(!Seq::<EdgeDescriptor<EV>>::empty().contains(e));
    assert(finder.spec_matches(e));
    assert(seq![connection.edge_type].contains(e.edge_type));
    assert(seq![connection.edge_type][0] == connection.edge_type);
    assert(set![connection.host].contains(e.host));
    assert(set![connection.target].contains(e.target));
    assert(e == connection.spec_with_render(Some(EdgeDir::Emit)));
}

/// Settling a candidate that leads to a node in need of a render edge and
/// comes from a node that stays gives the node its render edge: the mirror
/// of the candidate with the mark of a render edge is staged for addition
/// to the node, or the graph holds it there and it is not removed.
pub proof fn law_settling_renders_the_target<TV, EV, AV>(
    staged: BuildBlueprintView<TV, EV>,
    search: RenderSearchView<TV, EV>,
    graph: GraphView<TV, EV, AV>,
    connection: EdgeDescriptor<EV>,
)
    requires
        balanced(staged, graph),
        graph.in_order(),
        graph.symmetric(),
        single(staged, graph, search.connected),
        !search.connected.contains(connection.target),
        lookup(search.uncertain, connection.target) matches Some(node)
            && node.spec_render_edge() is None,
        !marked(staged, connection.target),
        !marked(staged, connection.host),
    ensures
        ({
            let after = staged.spec_settle(search, graph.nodes, connection);
            let keep = connection.spec_invert().spec_with_render(Some(EdgeDir::Recv));
            staged_adds(after, connection.target, keep) || (graph_holds(
                graph,
                connection.target,
                keep,
            ) && !takes(after, connection.target, keep))
        }),
{
    let t = connection.target;
    let host = connection.host;
    let mirror = connection.spec_invert();
    let keep = mirror.spec_with_render(Some(EdgeDir::Recv));
    let tagged = connection.spec_with_render(Some(EdgeDir::Emit));
    let assigned = staged.spec_assign(graph.nodes, connection);
    let after = staged.spec_settle(search, graph.nodes, connection);
    assert(after == assigned.spec_release(graph.nodes, connection));
    lemma_assign_balanced(staged, graph, connection);
    crate::common::edge_descriptor::lemma_invert_involution(connection);
    assert(tagged.spec_invert() == keep);
    assert(keep.spec_invert() == tagged);
    assert forall|e: EdgeDescriptor<EV>| !(#[trigger] staged_adds(staged, t, e) && renders_host(
        e,
    )) by {}
    let found = match graph.node(host) {
        Some(node) => node.spec_search_for_edge(
            crate::blueprint::render::rendering_pattern(connection),
        ) is Some,
        None => false,
    };
    let held = found && !staged.spec_takes(tagged);
    if held {
        lemma_held_is_marked(graph.node(host)->0, connection);
        assert(graph.node(t) is Some);
        lemma_graph_node_is_not_new(staged, graph, host);
        lemma_graph_node_is_not_new(staged, graph, t);
        assert(assigned == staged);
        assert(graph_holds(graph, host, tagged));
        assert(graph_holds(graph, t, keep));
        assert(!takes(staged, host, tagged));
        assert(!takes(staged, t, keep)) by {
            reveal(crate::laws::balance::removals_mirrored);
        }
    } else {
        let half = with_mark(staged, connection, Some(EdgeDir::Emit));
        lemma_mark_effects(staged, graph, connection, Some(EdgeDir::Emit));
        lemma_mark_effects(half, graph, mirror, Some(EdgeDir::Recv));
        assert(spec_invert_render(Some(EdgeDir::Emit)) == Some(EdgeDir::Recv));
        if found {
            let node = graph.node(host)->0;
            lemma_graph_node_is_not_new(staged, graph, host);
            crate::laws::pairing::lemma_held_leads_there(node, connection);
            let e = choose|e: EdgeDescriptor<EV>| #[trigger] node.holds(e) && e.target == t;
            assert(graph.node(host)->0.holds(e));
            lemma_graph_node_is_not_new(staged, graph, t);
        }
        assert(assigned == with_mark(half, mirror, Some(EdgeDir::Recv)));
        assert(staged_adds(assigned, t, keep));
    }
    assert forall|e: EdgeDescriptor<EV>|
        #[trigger] staged_adds(assigned, t, e) && renders_host(e) implies e == keep by {
        if assigned != staged {
            let half = with_mark(staged, connection, Some(EdgeDir::Emit));
            lemma_mark_effects(staged, graph, connection, Some(EdgeDir::Emit));
            lemma_mark_effects(half, graph, mirror, Some(EdgeDir::Recv));
            if e != keep {
                assert(staged_adds(half, t, e));
                assert(!renders_host(tagged));
                assert(staged_adds(staged, t, e));
            }
        }
    }
    match graph.node(t) {
        None => {},
        Some(node) => match node.spec_search_for_edge(rendered_through()) {
            None => {},
            Some(olds) => {
                assert forall|g: EdgeDescriptor<EV>| #[trigger] olds.contains(g) implies graph_holds(
                    graph,
                    t,
                    g,
                ) && renders_host(g) by {
                    lemma_render_edges_found(node, g);
                }
                lemma_release_each_takes(assigned, graph, t, olds, keep);
            },
        },
    }
}

} // verus!
