//! One render edge for every node that a transaction creates.

use vstd::prelude::*;

use crate::blueprint::build_blueprint::BuildBlueprintView;
use crate::blueprint::new_node::{
    render_parent_pattern, spec_find_more, spec_retag, NewNodeView,
};
use crate::blueprint::render::{
    rank_of, spec_best, spec_first_new, spec_settled, lemma_best_in_range, RenderSearchView,
};
use crate::collections::seq_facts::{
    lemma_keys_are_found, lemma_lookup_put_other, lemma_lookup_put_same, lemma_skip_members,
    lemma_without_between,
};
use crate::collections::seq_model::{
    insert_unique, keys_of, lemma_insert_members, lemma_union_members, lookup, put, without,
};
use crate::common::{EdgeDescriptor, EdgeDir, EdgeFinderView, Uid};
use crate::graph::reactive_node::read_reactive_node::NodeView;

verus! {

/// Whether `edge` is one through which its host is rendered.
pub open spec fn renders_host<EV>(edge: EdgeDescriptor<EV>) -> bool {
    edge.render_info == Some(EdgeDir::Recv)
}

/// The number of edges among `edges` through which their host is rendered.
pub open spec fn render_parent_count<EV>(edges: Seq<EdgeDescriptor<EV>>) -> nat
    decreases edges.len(),
{
    if edges.len() == 0 {
        0
    } else {
        render_parent_count(edges.drop_last()) + if renders_host(edges.last()) {
            1nat
        } else {
            0nat
        }
    }
}

/// Whether none of `edges` is one through which its host is rendered.
pub open spec fn unrendered<EV>(edges: Seq<EdgeDescriptor<EV>>) -> bool {
    forall|e: EdgeDescriptor<EV>| edges.contains(e) ==> !renders_host(e)
}

/// No edge renders exactly where the count of rendering edges is zero.
pub proof fn lemma_count_zero<EV>(edges: Seq<EdgeDescriptor<EV>>)
    ensures
        render_parent_count(edges) == 0 <==> unrendered(edges),
    decreases edges.len(),
{
    if edges.len() > 0 {
        lemma_count_zero(edges.drop_last());
        assert(edges[edges.len() - 1] == edges.last());
        if unrendered(edges) {
            assert(edges.contains(edges.last()));
            assert forall|e: EdgeDescriptor<EV>| edges.drop_last().contains(e) implies !renders_host(
                e,
            ) by {
                let j = choose|j: int| 0 <= j < edges.len() - 1 && edges.drop_last()[j] == e;
                assert(edges[j] == e);
            }
        }
        if render_parent_count(edges) == 0 {
            assert forall|e: EdgeDescriptor<EV>| edges.contains(e) implies !renders_host(e) by {
                let j = choose|j: int| 0 <= j < edges.len() && edges[j] == e;
                if j < edges.len() - 1 {
                    assert(edges.drop_last()[j] == e);
                }
            }
        }
    }
}

/// Taking an edge out lowers the count by one where the edge was there and
/// rendered, and leaves it else.
pub proof fn lemma_count_without<EV>(edges: Seq<EdgeDescriptor<EV>>, x: EdgeDescriptor<EV>)
    ensures
        render_parent_count(without(edges, x)) == render_parent_count(edges) - if edges.contains(x)
            && renders_host(x) {
            1int
        } else {
            0int
        },
    decreases edges.len(),
{
    if edges.len() > 0 {
        assert(edges[edges.len() - 1] == edges.last());
        if edges.last() == x {
        } else {
            lemma_count_without(edges.drop_last(), x);
            let rest = without(edges.drop_last(), x);
            assert(rest.push(edges.last()).drop_last() =~= rest);
            if edges.contains(x) {
                let j = choose|j: int| 0 <= j < edges.len() && edges[j] == x;
                assert(edges.drop_last()[j] == x);
            }
            if edges.drop_last().contains(x) {
                let j = choose|j: int| 0 <= j < edges.len() - 1 && edges.drop_last()[j] == x;
                assert(edges[j] == x);
            }
        }
    } else {
        assert(!edges.contains(x));
    }
}

/// Marking an edge as the one that renders its host, on a host that no edge
/// renders, leaves the host with one rendering edge.
pub proof fn lemma_retag_target<EV>(edges: Seq<EdgeDescriptor<EV>>, x: EdgeDescriptor<EV>)
    requires
        unrendered(edges),
    ensures
        render_parent_count(spec_retag(edges, x, Some(EdgeDir::Recv))) == 1,
{
    let rest = without(edges, x);
    let marked = x.spec_with_render(Some(EdgeDir::Recv));
    assert forall|e: EdgeDescriptor<EV>| rest.contains(e) implies !renders_host(e) by {
        lemma_without_between(edges, x, e);
    }
    lemma_count_zero(rest);
    if rest.contains(marked) {
        lemma_without_between(edges, x, marked);
        assert(edges.contains(marked));
        assert(renders_host(marked));
    }
    assert(rest.push(marked).drop_last() =~= rest);
}

/// Marking an edge that does not render its host as one that renders its
/// target leaves the number of edges that render the host as it was.
pub proof fn lemma_retag_host<EV>(edges: Seq<EdgeDescriptor<EV>>, c: EdgeDescriptor<EV>)
    requires
        !renders_host(c),
    ensures
        render_parent_count(spec_retag(edges, c, Some(EdgeDir::Emit))) == render_parent_count(
            edges,
        ),
{
    let rest = without(edges, c);
    let marked = c.spec_with_render(Some(EdgeDir::Emit));
    lemma_count_without(edges, c);
    if !rest.contains(marked) {
        assert(rest.push(marked).drop_last() =~= rest);
    }
}

/// A search that no edge matches adds nothing.
pub proof fn lemma_find_nothing<EV>(
    init: Seq<EdgeDescriptor<EV>>,
    edges: Seq<EdgeDescriptor<EV>>,
    finder: EdgeFinderView<EV>,
)
    requires
        forall|e: EdgeDescriptor<EV>| edges.contains(e) ==> !finder.spec_matches(e),
    ensures
        spec_find_more(init, edges, finder) == init,
    decreases edges.len(),
{
    if edges.len() > 0 {
        assert forall|e: EdgeDescriptor<EV>| edges.drop_last().contains(e) implies
            !finder.spec_matches(e) by {
            let j = choose|j: int| 0 <= j < edges.len() - 1 && edges.drop_last()[j] == e;
            assert(edges[j] == e);
        }
        lemma_find_nothing(init, edges.drop_last(), finder);
        assert(edges[edges.len() - 1] == edges.last());
        assert(edges.contains(edges.last()));
    }
}

/// A node that no edge renders has no render edge.
pub proof fn lemma_no_render_edge<TV, EV>(node: NewNodeView<TV, EV>)
    requires
        unrendered(node.add_edges),
    ensures
        node.spec_render_edge() is None,
{
    assert forall|e: EdgeDescriptor<EV>| node.add_edges.contains(e) implies !render_parent_pattern::<
        EV,
    >().spec_matches(e) by {
        assert(!renders_host(e));
    }
    lemma_find_nothing(Seq::empty(), node.add_edges, render_parent_pattern());
}

/// The number of render edges that node `id` is due while the search is
/// under way: one once it is connected, unless it is the root.
pub open spec fn render_edges_due(connected: Set<Uid>, root: Option<Uid>, id: Uid) -> nat {
    if connected.contains(id) && root != Some(id) {
        1
    } else {
        0
    }
}

/// Whether a search is in step with what is staged, for a transaction that
/// displaces no node: the search is over the new nodes, none of which had a
/// render edge to begin with; every new node has the render edges that it
/// is due; no candidate is an edge that renders its host; and every new
/// node that is not connected remains.
pub open spec fn in_step<TV, EV>(
    staged: BuildBlueprintView<TV, EV>,
    search: RenderSearchView<TV, EV>,
    root: Option<Uid>,
) -> bool {
    &&& forall|id: Uid| #[trigger]
        lookup(staged.new_nodes, id) is Some <==> lookup(search.uncertain, id) is Some
    &&& forall|id: Uid| #[trigger]
        lookup(search.uncertain, id) is Some ==> unrendered(
            lookup(search.uncertain, id)->0.add_edges,
        )
    &&& forall|id: Uid| #[trigger]
        lookup(staged.new_nodes, id) is Some ==> render_parent_count(
            lookup(staged.new_nodes, id)->0.add_edges,
        ) == render_edges_due(search.connected, root, id)
    &&& forall|c: (usize, EdgeDescriptor<EV>)| #[trigger]
        search.candidates.contains(c) ==> !renders_host(c.1)
    &&& forall|id: Uid|
        lookup(search.uncertain, id) is Some && !search.connected.contains(id)
            ==> #[trigger] search.remaining.contains(id)
    &&& forall|id: Uid| #[trigger]
        search.remaining.contains(id) ==> lookup(search.uncertain, id) is Some
    &&& forall|n: NewNodeView<TV, EV>| #[trigger]
        search.newly_connected.contains(n) ==> unrendered(n.add_edges)
    &&& root matches Some(r) ==> search.connected.contains(r)
}

/// Offering edges that do not render their host keeps a search in step,
/// and changes nothing but the candidates.
pub proof fn lemma_offer_all_keeps<TV, EV>(
    staged: BuildBlueprintView<TV, EV>,
    search: RenderSearchView<TV, EV>,
    root: Option<Uid>,
    patterns: Seq<EdgeFinderView<EV>>,
    edges: Seq<EdgeDescriptor<EV>>,
)
    requires
        in_step(staged, search, root),
        unrendered(edges),
    ensures
        in_step(staged, search.spec_offer_all(patterns, edges), root),
        search.spec_offer_all(patterns, edges) == (RenderSearchView {
            candidates: search.spec_offer_all(patterns, edges).candidates,
            ..search
        }),
    decreases edges.len(),
{
    if edges.len() > 0 {
        let first = search.spec_offer(patterns, edges[0]);
        lemma_skip_members(edges, edges[0]);
        assert forall|c: (usize, EdgeDescriptor<EV>)| #[trigger]
            first.candidates.contains(c) implies !renders_host(c.1) by {
            lemma_insert_members(
                search.candidates,
                (rank_of(patterns, edges[0]) as usize, edges[0]),
                c,
            );
        }
        assert(in_step(staged, first, root));
        assert forall|e: EdgeDescriptor<EV>| edges.skip(1).contains(e) implies !renders_host(e) by {
            lemma_skip_members(edges, e);
        }
        lemma_offer_all_keeps(staged, first, root, patterns, edges.skip(1));
    }
}

/// Offering the edges of nodes that had no render edge keeps a search in
/// step, and changes nothing but the candidates.
pub proof fn lemma_expand_keeps<TV, EV>(
    staged: BuildBlueprintView<TV, EV>,
    search: RenderSearchView<TV, EV>,
    root: Option<Uid>,
    patterns: Seq<EdgeFinderView<EV>>,
    nodes: Seq<NewNodeView<TV, EV>>,
)
    requires
        in_step(staged, search, root),
        forall|n: NewNodeView<TV, EV>| nodes.contains(n) ==> unrendered(n.add_edges),
    ensures
        in_step(staged, search.spec_expand(patterns, nodes), root),
        search.spec_expand(patterns, nodes) == (RenderSearchView {
            candidates: search.spec_expand(patterns, nodes).candidates,
            ..search
        }),
    decreases nodes.len(),
{
    if nodes.len() > 0 {
        lemma_skip_members(nodes, nodes[0]);
        lemma_offer_all_keeps(staged, search, root, patterns, nodes[0].add_edges);
        let first = search.spec_offer_all(patterns, nodes[0].add_edges);
        assert forall|n: NewNodeView<TV, EV>| nodes.skip(1).contains(n) implies unrendered(
            n.add_edges,
        ) by {
            lemma_skip_members(nodes, n);
        }
        lemma_expand_keeps(staged, first, root, patterns, nodes.skip(1));
    }
}

/// Settling a candidate that does not render its host keeps a search in
/// step and adds no error.
pub proof fn lemma_settle_keeps<TV, EV, AV>(
    staged: BuildBlueprintView<TV, EV>,
    search: RenderSearchView<TV, EV>,
    graph: Seq<(Uid, NodeView<TV, EV, AV>)>,
    root: Option<Uid>,
    connection: EdgeDescriptor<EV>,
)
    requires
        in_step(staged, search, root),
        !renders_host(connection),
    ensures
        in_step(staged.spec_settle(search, graph, connection), spec_settled(search, connection), root),
        staged.spec_settle(search, graph, connection).errors == staged.errors,
{
    let target = connection.target;
    let host = connection.host;
    if !search.connected.contains(target) && lookup(search.uncertain, target) is Some {
        let node = lookup(search.uncertain, target)->0;
        lemma_no_render_edge(node);
        let after = staged.spec_assign(graph, connection);
        let settled = search.spec_connect(target, node);
        crate::laws::cascade::lemma_release_frame(after, graph, connection);
        assert(staged.spec_settle(search, graph, connection).new_nodes == after.new_nodes);
        assert(spec_settled(search, connection) == settled);
        assert(lookup(staged.new_nodes, target) is Some);
        let hosted = match lookup(staged.new_nodes, host) {
            Some(h) => put(
                staged.new_nodes,
                host,
                NewNodeView {
                    add_edges: spec_retag(h.add_edges, connection, Some(EdgeDir::Emit)),
                    ..h
                },
            ),
            None => staged.new_nodes,
        };
        let target_record = lookup(hosted, target)->0;
        let marked = NewNodeView {
            add_edges: spec_retag(
                target_record.add_edges,
                connection.spec_invert(),
                Some(EdgeDir::Recv),
            ),
            ..target_record
        };
        match lookup(staged.new_nodes, host) {
            Some(h) => {
                let retagged = NewNodeView {
                    add_edges: spec_retag(h.add_edges, connection, Some(EdgeDir::Emit)),
                    ..h
                };
                lemma_lookup_put_same(staged.new_nodes, host, retagged);
                lemma_retag_host(h.add_edges, connection);
                if host != target {
                    lemma_lookup_put_other(staged.new_nodes, host, retagged, target);
                }
            },
            None => {},
        }
        assert(lookup(hosted, target) is Some);
        assert(after.new_nodes == put(hosted, target, marked));
        assert(render_parent_count(target_record.add_edges) == 0);
        lemma_count_zero(target_record.add_edges);
        lemma_retag_target(target_record.add_edges, connection.spec_invert());
        lemma_lookup_put_same(hosted, target, marked);
        assert forall|id: Uid| #[trigger]
            lookup(after.new_nodes, id) is Some <==> lookup(settled.uncertain, id) is Some by {
            if id != target {
                lemma_lookup_put_other(hosted, target, marked, id);
                if lookup(staged.new_nodes, host) is Some && id != host {
                    let h = lookup(staged.new_nodes, host)->0;
                    lemma_lookup_put_other(
                        staged.new_nodes,
                        host,
                        NewNodeView {
                            add_edges: spec_retag(h.add_edges, connection, Some(EdgeDir::Emit)),
                            ..h
                        },
                        id,
                    );
                }
            }
        }
        assert forall|id: Uid| #[trigger]
            lookup(after.new_nodes, id) is Some implies render_parent_count(
            lookup(after.new_nodes, id)->0.add_edges,
        ) == render_edges_due(settled.connected, root, id) by {
            if id != target {
                lemma_lookup_put_other(hosted, target, marked, id);
                if lookup(staged.new_nodes, host) is Some && id != host {
                    let h = lookup(staged.new_nodes, host)->0;
                    lemma_lookup_put_other(
                        staged.new_nodes,
                        host,
                        NewNodeView {
                            add_edges: spec_retag(h.add_edges, connection, Some(EdgeDir::Emit)),
                            ..h
                        },
                        id,
                    );
                }
                assert(lookup(staged.new_nodes, id) is Some);
            }
        }
        assert forall|id: Uid|
            lookup(settled.uncertain, id) is Some && !settled.connected.contains(
                id,
            ) implies #[trigger] settled.remaining.contains(id) by {
            lemma_without_between(search.remaining, target, id);
            assert(search.remaining.contains(id));
        }
        assert forall|id: Uid| #[trigger] settled.remaining.contains(id) implies lookup(
            settled.uncertain,
            id,
        ) is Some by {
            lemma_without_between(search.remaining, target, id);
        }
        assert forall|n: NewNodeView<TV, EV>| #[trigger]
            settled.newly_connected.contains(n) implies unrendered(n.add_edges) by {
            let j = choose|j: int|
                0 <= j < settled.newly_connected.len() && settled.newly_connected[j] == n;
            if j < search.newly_connected.len() {
                assert(search.newly_connected[j] == n);
                assert(search.newly_connected.contains(n));
            }
        }
    }
}

/// Among identifiers of which the first is a new node, a new node is
/// found.
pub proof fn lemma_first_new_found<TV, EV>(new_nodes: Seq<(Uid, NewNodeView<TV, EV>)>, ids: Seq<Uid>)
    requires
        ids.len() > 0,
        lookup(new_nodes, ids[0]) is Some,
    ensures
        spec_first_new(new_nodes, ids) is Some,
{
}

/// A search that is in step and ends without a new error leaves every new
/// node with one render edge, and the root with none.
pub proof fn lemma_rounds<TV, EV, AV>(
    staged: BuildBlueprintView<TV, EV>,
    search: RenderSearchView<TV, EV>,
    graph: Seq<(Uid, NodeView<TV, EV, AV>)>,
    patterns: Seq<EdgeFinderView<EV>>,
    fuel: nat,
    root: Option<Uid>,
)
    requires
        in_step(staged, search, root),
    ensures
        staged.spec_render_rounds(search, graph, patterns, fuel).errors.len()
            >= staged.errors.len(),
        staged.spec_render_rounds(search, graph, patterns, fuel).errors.len()
            == staged.errors.len() ==> forall|id: Uid| #[trigger]
            lookup(
                staged.spec_render_rounds(search, graph, patterns, fuel).new_nodes,
                id,
            ) is Some ==> render_parent_count(
                lookup(
                    staged.spec_render_rounds(search, graph, patterns, fuel).new_nodes,
                    id,
                )->0.add_edges,
            ) == (if root == Some(id) {
                0nat
            } else {
                1nat
            }),
    decreases fuel,
{
    if search.remaining.len() == 0 {
        assert forall|id: Uid| #[trigger] lookup(staged.new_nodes, id) is Some implies render_parent_count(
            lookup(staged.new_nodes, id)->0.add_edges,
        ) == (if root == Some(id) {
            0nat
        } else {
            1nat
        }) by {
            assert(lookup(search.uncertain, id) is Some);
            if !search.connected.contains(id) {
                assert(search.remaining.contains(id));
            }
        }
    } else if fuel == 0 {
    } else {
        let cleared = RenderSearchView { newly_connected: Seq::empty(), ..search };
        assert(in_step(staged, cleared, root)) by {
            assert forall|n: NewNodeView<TV, EV>| #[trigger]
                cleared.newly_connected.contains(n) implies unrendered(n.add_edges) by {}
        }
        lemma_expand_keeps(staged, cleared, root, patterns, search.newly_connected);
        let offered = search.spec_expanded(patterns);
        if offered.candidates.len() == 0 {
            assert(offered.remaining.contains(offered.remaining[0]));
            lemma_first_new_found(staged.new_nodes, offered.remaining);
        } else {
            lemma_best_in_range(offered.candidates);
            let taken = offered.candidates[spec_best(offered.candidates)];
            assert(offered.candidates.contains(taken));
            let left = RenderSearchView { candidates: without(offered.candidates, taken), ..offered };
            assert(in_step(staged, left, root)) by {
                assert forall|c: (usize, EdgeDescriptor<EV>)| #[trigger]
                    left.candidates.contains(c) implies !renders_host(c.1) by {
                    lemma_without_between(offered.candidates, taken, c);
                }
            }
            lemma_settle_keeps(staged, left, graph, root, taken.1);
            lemma_rounds(
                staged.spec_settle(left, graph, taken.1),
                spec_settled(left, taken.1),
                graph,
                patterns,
                (fuel - 1) as nat,
                root,
            );
        }
    }
}

/// The root that a transaction names: the node behind its root alias.
pub open spec fn root_of<TV, EV>(
    staged: BuildBlueprintView<TV, EV>,
    entry_point: Option<Uid>,
) -> Option<Uid> {
    match entry_point {
        Some(temp) => if staged.temp_id_map.dom().contains(temp) {
            Some(staged.temp_id_map[temp])
        } else {
            None
        },
        None => None,
    }
}

impl<TV, EV> BuildBlueprintView<TV, EV> {
    /// Whether no render edge is chosen yet: no staged edge of a new node
    /// and no way in renders its host, and no way into a displaced node is
    /// noted.
    pub open spec fn unrendered_yet(self) -> bool {
        &&& self.displaced_entry_edges.len() == 0
        &&& forall|id: Uid| #[trigger]
            lookup(self.new_nodes, id) is Some ==> unrendered(lookup(self.new_nodes, id)->0.add_edges)
        &&& unrendered(self.entry_edges)
    }

    /// Whether no edge to an alias renders its host.
    pub open spec fn aliases_unrendered(self) -> bool {
        forall|t: (EdgeDescriptor<EV>, bool)| #[trigger]
            self.temp_edges.contains(t) ==> t.0.render_info is None
    }

    /// Whether the transaction only creates and changes nodes, and has not
    /// chosen any render edge yet: nothing is deleted, removed or displaced,
    /// and no staged edge of a new node, no way in and no edge to an alias
    /// renders its host.
    pub open spec fn creates_only(self) -> bool {
        &&& self.delete_nodes.len() == 0
        &&& self.remove_edge_finders.len() == 0
        &&& self.displaced_nodes.len() == 0
        &&& self.unrendered_yet()
        &&& self.aliases_unrendered()
    }
}

/// Whether `after` marks, queues and displaces what `before` does, and
/// knows the same aliases.
pub open spec fn same_marks_and_aliases<TV, EV>(
    after: BuildBlueprintView<TV, EV>,
    before: BuildBlueprintView<TV, EV>,
) -> bool {
    &&& after.delete_nodes == before.delete_nodes
    &&& after.remove_edge_finders == before.remove_edge_finders
    &&& after.displaced_nodes == before.displaced_nodes
    &&& after.temp_id_map == before.temp_id_map
}

proof fn lemma_add_edge_keeps<TV, EV>(
    staged: BuildBlueprintView<TV, EV>,
    edge: EdgeDescriptor<EV>,
    is_new: bool,
)
    requires
        staged.unrendered_yet(),
        !renders_host(edge),
    ensures
        staged.spec_add_edge(edge, is_new).unrendered_yet(),
        staged.spec_add_edge(edge, is_new).errors == staged.errors,
        staged.spec_add_edge(edge, is_new).temp_edges == staged.temp_edges,
        same_marks_and_aliases(staged.spec_add_edge(edge, is_new), staged),
{
    let after = staged.spec_add_edge(edge, is_new);
    if is_new {
        let node = staged.new_node_or_blank(edge.host);
        let grown = NewNodeView { add_edges: insert_unique(node.add_edges, edge), ..node };
        assert(unrendered(node.add_edges)) by {
            if lookup(staged.new_nodes, edge.host) is None {
                assert forall|e: EdgeDescriptor<EV>| node.add_edges.contains(e) implies
                    !renders_host(e) by {}
            }
        }
        assert forall|e: EdgeDescriptor<EV>| grown.add_edges.contains(e) implies !renders_host(
            e,
        ) by {
            lemma_insert_members(node.add_edges, edge, e);
        }
        lemma_lookup_put_same(staged.new_nodes, edge.host, grown);
        assert forall|id: Uid| #[trigger] lookup(after.new_nodes, id) is Some implies unrendered(
            lookup(after.new_nodes, id)->0.add_edges,
        ) by {
            if id != edge.host {
                lemma_lookup_put_other(staged.new_nodes, edge.host, grown, id);
            }
        }
    }
}

/// Resolving edges to aliases, none of which renders its host, chooses no
/// render edge, loses no error, and marks, queues and displaces nothing.
pub proof fn lemma_resolve_keeps<TV, EV>(
    staged: BuildBlueprintView<TV, EV>,
    temps: Seq<(EdgeDescriptor<EV>, bool)>,
)
    requires
        staged.unrendered_yet(),
        forall|t: (EdgeDescriptor<EV>, bool)| temps.contains(t) ==> t.0.render_info is None,
    ensures
        staged.spec_resolve_temp_edges(temps).unrendered_yet(),
        staged.spec_resolve_temp_edges(temps).errors.len() >= staged.errors.len(),
        same_marks_and_aliases(staged.spec_resolve_temp_edges(temps), staged),
    decreases temps.len(),
{
    if temps.len() > 0 {
        let (edge, is_new) = temps[0];
        lemma_skip_members(temps, temps[0]);
        let first = staged.spec_resolve_temp_edge(temps[0]);
        if staged.temp_id_map.dom().contains(edge.target) {
            let resolved = EdgeDescriptor { target: staged.temp_id_map[edge.target], ..edge };
            lemma_add_edge_keeps(staged, resolved.spec_invert(), true);
            let inverse_staged = staged.spec_add_edge(resolved.spec_invert(), true);
            let entered = if is_new {
                inverse_staged
            } else {
                inverse_staged.spec_add_entry_edge(resolved)
            };
            assert(entered.unrendered_yet()) by {
                assert forall|e: EdgeDescriptor<EV>| entered.entry_edges.contains(e) implies
                    !renders_host(e) by {
                    lemma_insert_members(inverse_staged.entry_edges, resolved, e);
                }
            }
            lemma_add_edge_keeps(entered, resolved, is_new);
        }
        assert(first.unrendered_yet());
        assert forall|t: (EdgeDescriptor<EV>, bool)| temps.skip(1).contains(t) implies t.0.render_info is None by {
            lemma_skip_members(temps, t);
        }
        lemma_resolve_keeps(first, temps.skip(1));
    }
}

/// Sealing changes loses no error.
pub proof fn lemma_seal_grows<TV, EV, AV>(
    sealed: crate::blueprint::finalize::Sealed<TV, EV>,
    graph: Seq<(Uid, NodeView<TV, EV, AV>)>,
    updates: Seq<(Uid, crate::blueprint::update_node::UpdateNodeView<TV, EV>)>,
)
    ensures
        crate::blueprint::finalize::spec_seal_each(sealed, graph, updates).errors.len()
            >= sealed.errors.len(),
    decreases updates.len(),
{
    if updates.len() > 0 {
        let (id, update) = updates[0];
        let next = crate::blueprint::finalize::Sealed {
            updates: put(sealed.updates, id, crate::blueprint::finalize::spec_seal(graph, id, update)),
            errors: if update.replacement_data is Some && lookup(graph, id) is None {
                sealed.errors.push(crate::blueprint::finalize::update_not_found(id))
            } else {
                sealed.errors
            },
        };
        lemma_seal_grows(next, graph, updates.skip(1));
    }
}

/// Where a transaction that displaces no node and has not chosen any
/// render edge yet gets through the choice of render edges without a new
/// error, every node that it creates has one edge through which it is
/// rendered, but for the root, which has none.
pub proof fn law_one_render_edge_chosen<TV, EV, AV>(
    staged: BuildBlueprintView<TV, EV>,
    graph: Seq<(Uid, NodeView<TV, EV, AV>)>,
    patterns: Seq<EdgeFinderView<EV>>,
    entry_point: Option<Uid>,
)
    requires
        staged.displaced_nodes.len() == 0,
        staged.unrendered_yet(),
    ensures
        staged.spec_set_render_edges(graph, patterns, entry_point).errors.len()
            >= staged.errors.len(),
        staged.spec_set_render_edges(graph, patterns, entry_point).errors.len()
            == staged.errors.len() ==> forall|id: Uid| #[trigger]
            lookup(
                staged.spec_set_render_edges(graph, patterns, entry_point).new_nodes,
                id,
            ) is Some ==> render_parent_count(
                lookup(
                    staged.spec_set_render_edges(graph, patterns, entry_point).new_nodes,
                    id,
                )->0.add_edges,
            ) == (if root_of(staged, entry_point) == Some(id) {
                0nat
            } else {
                1nat
            }),
{
    let uncertain = crate::graph::reactive_node::build_reactive_node::spec_extend(
        staged.new_nodes,
        staged.displaced_nodes,
    );
    assert(uncertain == staged.new_nodes);
    let begin = RenderSearchView::begin(staged.new_nodes);
    lemma_union_members(Seq::<Uid>::empty(), keys_of(staged.new_nodes));
    assert(in_step(staged, begin, None)) by {
        assert forall|id: Uid| #[trigger] lookup(staged.new_nodes, id) is Some implies render_parent_count(
            lookup(staged.new_nodes, id)->0.add_edges,
        ) == render_edges_due(begin.connected, None, id) by {
            lemma_count_zero(lookup(staged.new_nodes, id)->0.add_edges);
        }
        assert forall|id: Uid|
            lookup(begin.uncertain, id) is Some && !begin.connected.contains(
                id,
            ) implies #[trigger] begin.remaining.contains(id) by {
            lemma_keys_are_found(staged.new_nodes, id);
        }
        assert forall|id: Uid| #[trigger] begin.remaining.contains(id) implies lookup(
            begin.uncertain,
            id,
        ) is Some by {
            lemma_keys_are_found(staged.new_nodes, id);
            assert(!Seq::<Uid>::empty().contains(id));
        }
    }
    match entry_point {
        Some(temp) => {
            if staged.temp_id_map.dom().contains(temp) {
                let root = staged.temp_id_map[temp];
                match lookup(begin.uncertain, root) {
                    None => {},
                    Some(node) => {
                        lemma_no_render_edge(node);
                        let started = begin.spec_connect(root, node);
                        assert(in_step(staged, started, Some(root))) by {
                            assert forall|id: Uid| #[trigger]
                                lookup(staged.new_nodes, id) is Some implies render_parent_count(
                                lookup(staged.new_nodes, id)->0.add_edges,
                            ) == render_edges_due(started.connected, Some(root), id) by {
                                lemma_count_zero(lookup(staged.new_nodes, id)->0.add_edges);
                            }
                            assert forall|id: Uid|
                                lookup(started.uncertain, id) is Some && !started.connected.contains(
                                    id,
                                ) implies #[trigger] started.remaining.contains(id) by {
                                lemma_without_between(begin.remaining, root, id);
                                assert(begin.remaining.contains(id));
                            }
                            assert forall|id: Uid| #[trigger]
                                started.remaining.contains(id) implies lookup(
                                started.uncertain,
                                id,
                            ) is Some by {
                                lemma_without_between(begin.remaining, root, id);
                            }
                            assert forall|n: NewNodeView<TV, EV>| #[trigger]
                                started.newly_connected.contains(n) implies unrendered(
                                n.add_edges,
                            ) by {
                                let j = choose|j: int|
                                    0 <= j < started.newly_connected.len()
                                        && started.newly_connected[j] == n;
                                assert(n == node);
                            }
                        }
                        lemma_rounds(
                            staged,
                            started,
                            graph,
                            patterns,
                            usize::MAX as nat,
                            Some(root),
                        );
                    },
                }
            }
        },
        None => {
            lemma_offer_all_keeps(staged, begin, None, patterns, staged.entry_edges);
            let seeded = begin.spec_offer_all(patterns, staged.entry_edges);
            assert(unrendered(staged.displaced_entry_edges)) by {
                assert forall|e: EdgeDescriptor<EV>|
                    staged.displaced_entry_edges.contains(e) implies !renders_host(e) by {}
            }
            lemma_offer_all_keeps(staged, seeded, None, patterns, staged.displaced_entry_edges);
            lemma_rounds(
                staged,
                seeded.spec_offer_all(patterns, staged.displaced_entry_edges),
                graph,
                patterns,
                usize::MAX as nat,
                None,
            );
        },
    }
}

/// Where a transaction that only creates and changes nodes is finalized
/// with success, every node that it creates has one edge through which it
/// is rendered, but for the root, which has none.
pub proof fn law_render_uniqueness<TV, EV, AV>(
    staged: BuildBlueprintView<TV, EV>,
    graph: Seq<(Uid, NodeView<TV, EV, AV>)>,
    specifiers: Option<Seq<crate::blueprint::build_blueprint::AllowedRenderEdgeSpecifier<EV>>>,
    entry_point: Option<Uid>,
    sealed: crate::blueprint::finalized_blueprint::FinalizedBlueprintView<TV, EV>,
)
    requires
        staged.creates_only(),
        staged.spec_finalize(graph, specifiers, entry_point) == Ok::<
            crate::blueprint::finalized_blueprint::FinalizedBlueprintView<TV, EV>,
            Seq<crate::common::GraphErrorView>,
        >(sealed),
    ensures
        forall|id: Uid| #[trigger]
            lookup(sealed.new_nodes, id) is Some ==> render_parent_count(
                lookup(sealed.new_nodes, id)->0.add_edges,
            ) == (if root_of(staged, entry_point) == Some(id) {
                0nat
            } else {
                1nat
            }),
{
    let patterns = crate::blueprint::render::spec_render_patterns(specifiers);
    let resolved = staged.spec_update_temp_ids();
    lemma_resolve_keeps(staged, staged.temp_edges);
    let deleted = resolved.spec_finalize_delete_nodes(graph);
    assert(deleted == resolved);
    let removed = deleted.spec_finalize_removed_edges(graph);
    assert(removed == deleted);
    let noted = removed.spec_find_potential_entries(graph).spec_hold_back_entries();
    assert(noted == removed.spec_hold_back_entries());
    assert(unrendered(noted.entry_edges)) by {
        assert forall|e: EdgeDescriptor<EV>| noted.entry_edges.contains(e) implies !renders_host(
            e,
        ) by {
            crate::laws::cascade::lemma_staying_members(
                removed.entry_edges,
                removed.displaced_nodes,
                e,
            );
        }
    }
    let chosen = noted.spec_set_render_edges(graph, patterns, entry_point);
    law_one_render_edge_chosen(noted, graph, patterns, entry_point);
    lemma_seal_grows(
        crate::blueprint::finalize::Sealed { updates: Seq::empty(), errors: chosen.errors },
        graph,
        chosen.update_nodes,
    );
    assert(chosen.errors.len() == 0);
    assert(sealed.new_nodes == chosen.new_nodes);
    assert(root_of(noted, entry_point) == root_of(staged, entry_point));
}

/// The choice of render edges loses no error.
pub proof fn law_no_error_is_lost<TV, EV, AV>(
    staged: BuildBlueprintView<TV, EV>,
    graph: Seq<(Uid, NodeView<TV, EV, AV>)>,
    patterns: Seq<EdgeFinderView<EV>>,
    entry_point: Option<Uid>,
)
    ensures
        staged.spec_set_render_edges(graph, patterns, entry_point).errors.len()
            >= staged.errors.len(),
{
    let begin = RenderSearchView::begin(
        crate::graph::reactive_node::build_reactive_node::spec_extend(
            staged.new_nodes,
            staged.displaced_nodes,
        ),
    );
    match entry_point {
        Some(temp) => {
            if staged.temp_id_map.dom().contains(temp) {
                let root = staged.temp_id_map[temp];
                match lookup(begin.uncertain, root) {
                    None => {},
                    Some(node) => {
                        if node.spec_render_edge() is None {
                            crate::laws::cascade::lemma_rounds_carry(
                                staged,
                                begin.spec_connect(root, node),
                                graph,
                                patterns,
                                usize::MAX as nat,
                            );
                        }
                    },
                }
            }
        },
        None => {
            crate::laws::cascade::lemma_rounds_carry(
                staged,
                begin.spec_offer_all(patterns, staged.entry_edges).spec_offer_all(
                    patterns,
                    staged.displaced_entry_edges,
                ),
                graph,
                patterns,
                usize::MAX as nat,
            );
        },
    }
}

} // verus!
