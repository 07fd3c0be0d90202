//! Which displaced nodes a transaction keeps: those that a chain of edges
//! that may render leads to from a node that stays.

use vstd::prelude::*;

use crate::blueprint::build_blueprint::BuildBlueprintView;
use crate::blueprint::new_node::NewNodeView;
use crate::blueprint::render::{
    lemma_best_in_range, rank_of, spec_best, spec_first_new, spec_settled, RenderSearchView,
};
use crate::collections::seq_facts::{
    lemma_insert_keeps_distinct, lemma_keys_are_found, lemma_skip_members, lemma_without_between,
    lemma_without_members,
};
use crate::collections::seq_model::{
    keys_of, lemma_insert_members, lemma_union_members, lookup, union_seq, without,
};
use crate::common::{EdgeDescriptor, EdgeFinderView, Uid};
use crate::graph::reactive_node::build_reactive_node::spec_extend;
use crate::graph::reactive_node::read_reactive_node::NodeView;
use crate::laws::cascade::lemma_delete_each_carries;

verus! {

/// Whether `edge` may render: some pattern matches it.
pub open spec fn admissible<EV>(patterns: Seq<EdgeFinderView<EV>>, edge: EdgeDescriptor<EV>) -> bool {
    rank_of(patterns, edge) < patterns.len()
}

/// The candidate that stands for `edge`.
pub open spec fn candidate_for<EV>(
    patterns: Seq<EdgeFinderView<EV>>,
    edge: EdgeDescriptor<EV>,
) -> (usize, EdgeDescriptor<EV>) {
    (rank_of(patterns, edge) as usize, edge)
}

/// Whether node `id` is in need of a render edge.
pub open spec fn needs<TV, EV>(uncertain: Seq<(Uid, NewNodeView<TV, EV>)>, id: Uid) -> bool {
    lookup(uncertain, id) is Some
}

/// The edges of node `id`, none where the node needs no render edge.
pub open spec fn edges_of<TV, EV>(uncertain: Seq<(Uid, NewNodeView<TV, EV>)>, id: Uid) -> Seq<
    EdgeDescriptor<EV>,
> {
    match lookup(uncertain, id) {
        Some(n) => n.add_edges,
        None => Seq::empty(),
    }
}

/// Whether edge `i` of `chain` may render and leads to a node in need of a
/// render edge.
pub open spec fn step_fits<TV, EV>(
    uncertain: Seq<(Uid, NewNodeView<TV, EV>)>,
    patterns: Seq<EdgeFinderView<EV>>,
    chain: Seq<EdgeDescriptor<EV>>,
    i: int,
) -> bool {
    admissible(patterns, chain[i]) && needs(uncertain, chain[i].target)
}

/// Whether edge `i` of `chain` is an edge of the node that the edge before
/// it leads to.
pub open spec fn step_joins<TV, EV>(
    uncertain: Seq<(Uid, NewNodeView<TV, EV>)>,
    chain: Seq<EdgeDescriptor<EV>>,
    i: int,
) -> bool {
    edges_of(uncertain, chain[i - 1].target).contains(chain[i])
}

/// Whether `chain` leads in from a node that stays: it starts with a way
/// in, every edge of it may render and leads to a node in need of a render
/// edge, and each edge after the first is an edge of the node that the
/// edge before it leads to.
pub open spec fn leads_in<TV, EV>(
    uncertain: Seq<(Uid, NewNodeView<TV, EV>)>,
    seeds: Seq<EdgeDescriptor<EV>>,
    patterns: Seq<EdgeFinderView<EV>>,
    chain: Seq<EdgeDescriptor<EV>>,
) -> bool {
    &&& chain.len() > 0
    &&& seeds.contains(chain[0])
    &&& forall|i: int| 0 <= i < chain.len() ==> #[trigger] step_fits(uncertain, patterns, chain, i)
    &&& forall|i: int| 0 < i < chain.len() ==> #[trigger] step_joins(uncertain, chain, i)
}

/// Whether `chain` leads in and ends at node `id`.
pub open spec fn leads_to<TV, EV>(
    uncertain: Seq<(Uid, NewNodeView<TV, EV>)>,
    seeds: Seq<EdgeDescriptor<EV>>,
    patterns: Seq<EdgeFinderView<EV>>,
    chain: Seq<EdgeDescriptor<EV>>,
    id: Uid,
) -> bool {
    leads_in(uncertain, seeds, patterns, chain) && chain.last().target == id
}

/// Whether a chain of edges that may render leads to node `id` from a node
/// that stays.
pub open spec fn reachable<TV, EV>(
    uncertain: Seq<(Uid, NewNodeView<TV, EV>)>,
    seeds: Seq<EdgeDescriptor<EV>>,
    patterns: Seq<EdgeFinderView<EV>>,
    id: Uid,
) -> bool {
    exists|chain: Seq<EdgeDescriptor<EV>>| #[trigger]
        leads_to(uncertain, seeds, patterns, chain, id)
}

/// Whether `edge` is taken care of: it may not render, or leads to a node
/// that is connected or needs no render edge, or is among the candidates.
pub open spec fn cared_for<TV, EV>(
    uncertain: Seq<(Uid, NewNodeView<TV, EV>)>,
    connected: Set<Uid>,
    candidates: Seq<(usize, EdgeDescriptor<EV>)>,
    patterns: Seq<EdgeFinderView<EV>>,
    edge: EdgeDescriptor<EV>,
) -> bool {
    ||| !admissible(patterns, edge)
    ||| connected.contains(edge.target)
    ||| !needs(uncertain, edge.target)
    ||| candidates.contains(candidate_for(patterns, edge))
}

/// Whether `edge` is an edge of connected node `host`.
pub open spec fn sighted_from<TV, EV>(
    uncertain: Seq<(Uid, NewNodeView<TV, EV>)>,
    connected: Set<Uid>,
    host: Uid,
    edge: EdgeDescriptor<EV>,
) -> bool {
    connected.contains(host) && edges_of(uncertain, host).contains(edge)
}

/// Whether `edge` comes from where the search has got to: it is a way in,
/// or an edge of a connected node.
pub open spec fn in_sight<TV, EV>(
    uncertain: Seq<(Uid, NewNodeView<TV, EV>)>,
    connected: Set<Uid>,
    seeds: Seq<EdgeDescriptor<EV>>,
    edge: EdgeDescriptor<EV>,
) -> bool {
    seeds.contains(edge) || exists|host: Uid| #[trigger]
        sighted_from(uncertain, connected, host, edge)
}

/// Whether connected node `id` has record `n`.
pub open spec fn stands_for<TV, EV>(
    uncertain: Seq<(Uid, NewNodeView<TV, EV>)>,
    connected: Set<Uid>,
    id: Uid,
    n: NewNodeView<TV, EV>,
) -> bool {
    connected.contains(id) && lookup(uncertain, id) == Some(n)
}

/// Whether every candidate of `few` is one of `many`.
pub open spec fn among<EV>(
    few: Seq<(usize, EdgeDescriptor<EV>)>,
    many: Seq<(usize, EdgeDescriptor<EV>)>,
) -> bool {
    forall|c: (usize, EdgeDescriptor<EV>)| #[trigger] few.contains(c) ==> many.contains(c)
}

/// Whether every connected node is reached by a chain.
#[verifier::opaque]
pub open spec fn sound<TV, EV>(
    uncertain: Seq<(Uid, NewNodeView<TV, EV>)>,
    connected: Set<Uid>,
    seeds: Seq<EdgeDescriptor<EV>>,
    patterns: Seq<EdgeFinderView<EV>>,
) -> bool {
    forall|id: Uid| #[trigger]
        connected.contains(id) ==> needs(uncertain, id) && reachable(
            uncertain,
            seeds,
            patterns,
            id,
        )
}

/// Whether each of `edges` is taken care of.
#[verifier::opaque]
pub open spec fn all_cared<TV, EV>(
    uncertain: Seq<(Uid, NewNodeView<TV, EV>)>,
    connected: Set<Uid>,
    candidates: Seq<(usize, EdgeDescriptor<EV>)>,
    patterns: Seq<EdgeFinderView<EV>>,
    edges: Seq<EdgeDescriptor<EV>>,
) -> bool {
    forall|e: EdgeDescriptor<EV>| #[trigger]
        edges.contains(e) ==> cared_for(uncertain, connected, candidates, patterns, e)
}

/// Whether every edge of a connected node is taken care of, unless the node
/// waits among `waiting` for its edges to be offered.
#[verifier::opaque]
pub open spec fn edges_cared<TV, EV>(
    uncertain: Seq<(Uid, NewNodeView<TV, EV>)>,
    connected: Set<Uid>,
    candidates: Seq<(usize, EdgeDescriptor<EV>)>,
    waiting: Seq<NewNodeView<TV, EV>>,
    patterns: Seq<EdgeFinderView<EV>>,
) -> bool {
    forall|id: Uid, e: EdgeDescriptor<EV>| #[trigger]
        sighted_from(uncertain, connected, id, e) ==> cared_for(
            uncertain,
            connected,
            candidates,
            patterns,
            e,
        ) || waiting.contains(lookup(uncertain, id)->0)
}

/// Whether every candidate is an edge that may render and comes from where
/// the search has got to.
#[verifier::opaque]
pub open spec fn candidates_sighted<TV, EV>(
    uncertain: Seq<(Uid, NewNodeView<TV, EV>)>,
    connected: Set<Uid>,
    candidates: Seq<(usize, EdgeDescriptor<EV>)>,
    seeds: Seq<EdgeDescriptor<EV>>,
    patterns: Seq<EdgeFinderView<EV>>,
) -> bool {
    forall|c: (usize, EdgeDescriptor<EV>)| #[trigger]
        candidates.contains(c) ==> c == candidate_for(patterns, c.1) && admissible(patterns, c.1)
            && in_sight(uncertain, connected, seeds, c.1)
}

/// Whether every node that waits is a connected node.
#[verifier::opaque]
pub open spec fn waiting_known<TV, EV>(
    uncertain: Seq<(Uid, NewNodeView<TV, EV>)>,
    connected: Set<Uid>,
    waiting: Seq<NewNodeView<TV, EV>>,
) -> bool {
    forall|n: NewNodeView<TV, EV>| #[trigger]
        waiting.contains(n) ==> exists|id: Uid| #[trigger] stands_for(uncertain, connected, id, n)
}

/// Whether the nodes that remain are, each once, the nodes in need of a
/// render edge that are not connected.
#[verifier::opaque]
pub open spec fn remaining_right<TV, EV>(
    uncertain: Seq<(Uid, NewNodeView<TV, EV>)>,
    connected: Set<Uid>,
    remaining: Seq<Uid>,
) -> bool {
    remaining.no_duplicates() && forall|id: Uid| #[trigger]
        remaining.contains(id) <==> needs(uncertain, id) && !connected.contains(id)
}

/// Whether the search has looked at everything it has got to.
pub open spec fn in_reach<TV, EV>(
    search: RenderSearchView<TV, EV>,
    seeds: Seq<EdgeDescriptor<EV>>,
    patterns: Seq<EdgeFinderView<EV>>,
) -> bool {
    &&& sound(search.uncertain, search.connected, seeds, patterns)
    &&& all_cared(search.uncertain, search.connected, search.candidates, patterns, seeds)
    &&& edges_cared(
        search.uncertain,
        search.connected,
        search.candidates,
        search.newly_connected,
        patterns,
    )
    &&& candidates_sighted(search.uncertain, search.connected, search.candidates, seeds, patterns)
    &&& waiting_known(search.uncertain, search.connected, search.newly_connected)
    &&& remaining_right(search.uncertain, search.connected, search.remaining)
}

/// Of no edges, each is taken care of.
proof fn lemma_none_cared<TV, EV>(
    uncertain: Seq<(Uid, NewNodeView<TV, EV>)>,
    connected: Set<Uid>,
    candidates: Seq<(usize, EdgeDescriptor<EV>)>,
    patterns: Seq<EdgeFinderView<EV>>,
)
    ensures
        all_cared(uncertain, connected, candidates, patterns, Seq::empty()),
{
    reveal(all_cared);
}

/// More candidates and more connected nodes take care of no less.
proof fn lemma_all_cared_grows<TV, EV>(
    uncertain: Seq<(Uid, NewNodeView<TV, EV>)>,
    connected: Set<Uid>,
    more_connected: Set<Uid>,
    candidates: Seq<(usize, EdgeDescriptor<EV>)>,
    more: Seq<(usize, EdgeDescriptor<EV>)>,
    patterns: Seq<EdgeFinderView<EV>>,
    edges: Seq<EdgeDescriptor<EV>>,
    settled: Seq<EdgeDescriptor<EV>>,
)
    requires
        all_cared(uncertain, connected, candidates, patterns, edges),
        connected.subset_of(more_connected),
        forall|c: (usize, EdgeDescriptor<EV>)| #[trigger]
            candidates.contains(c) ==> more.contains(c) || (settled.contains(c.1) && c
                == candidate_for(patterns, c.1)),
        all_cared(uncertain, more_connected, more, patterns, settled),
    ensures
        all_cared(uncertain, more_connected, more, patterns, edges),
{
    reveal(all_cared);
    assert forall|e: EdgeDescriptor<EV>| #[trigger] edges.contains(e) implies cared_for(
        uncertain,
        more_connected,
        more,
        patterns,
        e,
    ) by {
        assert(cared_for(uncertain, connected, candidates, patterns, e));
        if candidates.contains(candidate_for(patterns, e)) && !more.contains(
            candidate_for(patterns, e),
        ) {
            assert(settled.contains(e));
        }
    }
}

/// More candidates and more connected nodes take care of no fewer edges of
/// connected nodes.
proof fn lemma_edges_cared_grows<TV, EV>(
    uncertain: Seq<(Uid, NewNodeView<TV, EV>)>,
    connected: Set<Uid>,
    candidates: Seq<(usize, EdgeDescriptor<EV>)>,
    more: Seq<(usize, EdgeDescriptor<EV>)>,
    waiting: Seq<NewNodeView<TV, EV>>,
    patterns: Seq<EdgeFinderView<EV>>,
)
    requires
        edges_cared(uncertain, connected, candidates, waiting, patterns),
        among(candidates, more),
    ensures
        edges_cared(uncertain, connected, more, waiting, patterns),
{
    reveal(edges_cared);
    assert forall|id: Uid, e: EdgeDescriptor<EV>| #[trigger]
        sighted_from(uncertain, connected, id, e) implies cared_for(
        uncertain,
        connected,
        more,
        patterns,
        e,
    ) || waiting.contains(lookup(uncertain, id)->0) by {
        if cared_for(uncertain, connected, candidates, patterns, e) {
            if candidates.contains(candidate_for(patterns, e)) {
                assert(more.contains(candidate_for(patterns, e)));
            }
        }
    }
}

/// Offering an edge that comes from where the search has got to keeps the
/// search in reach, takes care of the edge, and takes nothing away.
proof fn lemma_offer_reach<TV, EV>(
    search: RenderSearchView<TV, EV>,
    seeds: Seq<EdgeDescriptor<EV>>,
    patterns: Seq<EdgeFinderView<EV>>,
    edge: EdgeDescriptor<EV>,
)
    requires
        in_reach(search, seeds, patterns),
        in_sight(search.uncertain, search.connected, seeds, edge),
    ensures
        in_reach(search.spec_offer(patterns, edge), seeds, patterns),
        cared_for(
            search.uncertain,
            search.connected,
            search.spec_offer(patterns, edge).candidates,
            patterns,
            edge,
        ),
        search.spec_offer(patterns, edge) == (RenderSearchView {
            candidates: search.spec_offer(patterns, edge).candidates,
            ..search
        }),
        among(search.candidates, search.spec_offer(patterns, edge).candidates),
{
    let after = search.spec_offer(patterns, edge);
    let offered = candidate_for(patterns, edge);
    assert forall|c: (usize, EdgeDescriptor<EV>)| #[trigger]
        after.candidates.contains(c) <==> search.candidates.contains(c) || (c == offered
            && !search.connected.contains(edge.target) && admissible(patterns, edge)) by {
        lemma_insert_members(search.candidates, offered, c);
    }
    assert(among(search.candidates, after.candidates));
    lemma_none_cared(search.uncertain, search.connected, after.candidates, patterns);
    lemma_all_cared_grows(
        search.uncertain,
        search.connected,
        search.connected,
        search.candidates,
        after.candidates,
        patterns,
        seeds,
        Seq::empty(),
    );
    lemma_edges_cared_grows(
        search.uncertain,
        search.connected,
        search.candidates,
        after.candidates,
        search.newly_connected,
        patterns,
    );
    assert(candidates_sighted(
        search.uncertain,
        search.connected,
        after.candidates,
        seeds,
        patterns,
    )) by {
        reveal(candidates_sighted);
    }
}

/// Offering edges that come from where the search has got to keeps the
/// search in reach, takes care of each of them, and takes nothing away.
proof fn lemma_offer_all_reach<TV, EV>(
    search: RenderSearchView<TV, EV>,
    seeds: Seq<EdgeDescriptor<EV>>,
    patterns: Seq<EdgeFinderView<EV>>,
    edges: Seq<EdgeDescriptor<EV>>,
)
    requires
        in_reach(search, seeds, patterns),
        forall|e: EdgeDescriptor<EV>| #[trigger]
            edges.contains(e) ==> in_sight(search.uncertain, search.connected, seeds, e),
    ensures
        in_reach(search.spec_offer_all(patterns, edges), seeds, patterns),
        all_cared(
            search.uncertain,
            search.connected,
            search.spec_offer_all(patterns, edges).candidates,
            patterns,
            edges,
        ),
        search.spec_offer_all(patterns, edges) == (RenderSearchView {
            candidates: search.spec_offer_all(patterns, edges).candidates,
            ..search
        }),
        among(search.candidates, search.spec_offer_all(patterns, edges).candidates),
    decreases edges.len(),
{
    if edges.len() > 0 {
        lemma_skip_members(edges, edges[0]);
        lemma_offer_reach(search, seeds, patterns, edges[0]);
        let first = search.spec_offer(patterns, edges[0]);
        assert forall|e: EdgeDescriptor<EV>| #[trigger] edges.skip(1).contains(e) implies in_sight(
            first.uncertain,
            first.connected,
            seeds,
            e,
        ) by {
            lemma_skip_members(edges, e);
        }
        lemma_offer_all_reach(first, seeds, patterns, edges.skip(1));
        let after = search.spec_offer_all(patterns, edges);
        assert(among(search.candidates, after.candidates));
        assert(all_cared(search.uncertain, search.connected, after.candidates, patterns, edges)) by {
            reveal(all_cared);
            assert forall|e: EdgeDescriptor<EV>| #[trigger] edges.contains(e) implies cared_for(
                search.uncertain,
                search.connected,
                after.candidates,
                patterns,
                e,
            ) by {
                lemma_skip_members(edges, e);
                if e == edges[0] {
                    if first.candidates.contains(candidate_for(patterns, e)) {
                        assert(after.candidates.contains(candidate_for(patterns, e)));
                    }
                }
            }
        }
    } else {
        assert(all_cared(
            search.uncertain,
            search.connected,
            search.candidates,
            patterns,
            edges,
        )) by {
            reveal(all_cared);
        }
    }
}

/// Whether every edge of each of `nodes` is taken care of.
#[verifier::opaque]
pub open spec fn nodes_cared<TV, EV>(
    uncertain: Seq<(Uid, NewNodeView<TV, EV>)>,
    connected: Set<Uid>,
    candidates: Seq<(usize, EdgeDescriptor<EV>)>,
    patterns: Seq<EdgeFinderView<EV>>,
    nodes: Seq<NewNodeView<TV, EV>>,
) -> bool {
    forall|n: NewNodeView<TV, EV>| #[trigger]
        nodes.contains(n) ==> all_cared(uncertain, connected, candidates, patterns, n.add_edges)
}

/// Offering the edges of nodes that wait for it keeps the search in reach,
/// takes care of each of these edges, and takes nothing away.
proof fn lemma_expand_reach<TV, EV>(
    search: RenderSearchView<TV, EV>,
    seeds: Seq<EdgeDescriptor<EV>>,
    patterns: Seq<EdgeFinderView<EV>>,
    nodes: Seq<NewNodeView<TV, EV>>,
)
    requires
        in_reach(search, seeds, patterns),
        waiting_known(search.uncertain, search.connected, nodes),
    ensures
        in_reach(search.spec_expand(patterns, nodes), seeds, patterns),
        nodes_cared(
            search.uncertain,
            search.connected,
            search.spec_expand(patterns, nodes).candidates,
            patterns,
            nodes,
        ),
        search.spec_expand(patterns, nodes) == (RenderSearchView {
            candidates: search.spec_expand(patterns, nodes).candidates,
            ..search
        }),
        among(search.candidates, search.spec_expand(patterns, nodes).candidates),
    decreases nodes.len(),
{
    if nodes.len() > 0 {
        lemma_skip_members(nodes, nodes[0]);
        assert forall|e: EdgeDescriptor<EV>| #[trigger] nodes[0].add_edges.contains(e) implies in_sight(
            search.uncertain,
            search.connected,
            seeds,
            e,
        ) by {
            reveal(waiting_known);
            let id0 = choose|id: Uid| #[trigger]
                stands_for(search.uncertain, search.connected, id, nodes[0]);
            assert(sighted_from(search.uncertain, search.connected, id0, e));
        }
        lemma_offer_all_reach(search, seeds, patterns, nodes[0].add_edges);
        let first = search.spec_offer_all(patterns, nodes[0].add_edges);
        assert(waiting_known(first.uncertain, first.connected, nodes.skip(1))) by {
            reveal(waiting_known);
            assert forall|n: NewNodeView<TV, EV>| #[trigger]
                nodes.skip(1).contains(n) implies exists|id: Uid| #[trigger]
                stands_for(first.uncertain, first.connected, id, n) by {
                lemma_skip_members(nodes, n);
            }
        }
        lemma_expand_reach(first, seeds, patterns, nodes.skip(1));
        let after = search.spec_expand(patterns, nodes);
        assert(among(search.candidates, after.candidates));
        assert(nodes_cared(search.uncertain, search.connected, after.candidates, patterns, nodes)) by {
            reveal(nodes_cared);
            assert forall|n: NewNodeView<TV, EV>| #[trigger] nodes.contains(n) implies all_cared(
                search.uncertain,
                search.connected,
                after.candidates,
                patterns,
                n.add_edges,
            ) by {
                lemma_skip_members(nodes, n);
                if n == nodes[0] {
                    lemma_none_cared(
                        search.uncertain,
                        search.connected,
                        after.candidates,
                        patterns,
                    );
                    lemma_all_cared_grows(
                        search.uncertain,
                        search.connected,
                        search.connected,
                        first.candidates,
                        after.candidates,
                        patterns,
                        n.add_edges,
                        Seq::empty(),
                    );
                }
            }
        }
    } else {
        assert(nodes_cared(
            search.uncertain,
            search.connected,
            search.candidates,
            patterns,
            nodes,
        )) by {
            reveal(nodes_cared);
        }
    }
}

/// What is offered does not depend on who waits.
proof fn lemma_offer_all_same<TV, EV>(
    search: RenderSearchView<TV, EV>,
    other: RenderSearchView<TV, EV>,
    patterns: Seq<EdgeFinderView<EV>>,
    edges: Seq<EdgeDescriptor<EV>>,
)
    requires
        other == (RenderSearchView { newly_connected: other.newly_connected, ..search }),
    ensures
        other.spec_offer_all(patterns, edges) == (RenderSearchView {
            newly_connected: other.newly_connected,
            ..search.spec_offer_all(patterns, edges)
        }),
    decreases edges.len(),
{
    if edges.len() > 0 {
        lemma_offer_all_same(
            search.spec_offer(patterns, edges[0]),
            other.spec_offer(patterns, edges[0]),
            patterns,
            edges.skip(1),
        );
    }
}

/// What is offered does not depend on who waits.
proof fn lemma_expand_same<TV, EV>(
    search: RenderSearchView<TV, EV>,
    other: RenderSearchView<TV, EV>,
    patterns: Seq<EdgeFinderView<EV>>,
    nodes: Seq<NewNodeView<TV, EV>>,
)
    requires
        other == (RenderSearchView { newly_connected: other.newly_connected, ..search }),
    ensures
        other.spec_expand(patterns, nodes) == (RenderSearchView {
            newly_connected: other.newly_connected,
            ..search.spec_expand(patterns, nodes)
        }),
    decreases nodes.len(),
{
    if nodes.len() > 0 {
        lemma_offer_all_same(search, other, patterns, nodes[0].add_edges);
        lemma_expand_same(
            search.spec_offer_all(patterns, nodes[0].add_edges),
            other.spec_offer_all(patterns, nodes[0].add_edges),
            patterns,
            nodes.skip(1),
        );
    }
}

/// Offering the edges of every waiting node keeps the search in reach,
/// leaves no node waiting, and changes nothing else but the candidates.
proof fn lemma_expanded_reach<TV, EV>(
    search: RenderSearchView<TV, EV>,
    seeds: Seq<EdgeDescriptor<EV>>,
    patterns: Seq<EdgeFinderView<EV>>,
)
    requires
        in_reach(search, seeds, patterns),
    ensures
        in_reach(search.spec_expanded(patterns), seeds, patterns),
        search.spec_expanded(patterns) == (RenderSearchView {
            candidates: search.spec_expanded(patterns).candidates,
            newly_connected: Seq::empty(),
            ..search
        }),
{
    let nodes = search.newly_connected;
    lemma_expand_reach(search, seeds, patterns, nodes);
    let with_waiting = search.spec_expand(patterns, nodes);
    let cleared = RenderSearchView { newly_connected: Seq::<NewNodeView<TV, EV>>::empty(), ..search };
    lemma_expand_same(search, cleared, patterns, nodes);
    let after = search.spec_expanded(patterns);
    assert(after == (RenderSearchView { newly_connected: Seq::empty(), ..with_waiting }));
    assert(edges_cared(
        after.uncertain,
        after.connected,
        after.candidates,
        after.newly_connected,
        patterns,
    )) by {
        reveal(edges_cared);
        reveal(nodes_cared);
        reveal(all_cared);
        assert forall|id: Uid, e: EdgeDescriptor<EV>| #[trigger]
            sighted_from(after.uncertain, after.connected, id, e) implies cared_for(
            after.uncertain,
            after.connected,
            after.candidates,
            patterns,
            e,
        ) || after.newly_connected.contains(lookup(after.uncertain, id)->0) by {
            let n = lookup(search.uncertain, id)->0;
            if nodes.contains(n) {
                assert(all_cared(
                    search.uncertain,
                    search.connected,
                    after.candidates,
                    patterns,
                    n.add_edges,
                ));
                assert(n.add_edges.contains(e));
            }
        }
    }
    assert(waiting_known(after.uncertain, after.connected, after.newly_connected)) by {
        reveal(waiting_known);
    }
}

/// A chain that leads in, with one more edge of the node it ends at that
/// may render and leads to a node in need of a render edge, leads in.
proof fn lemma_chain_grows<TV, EV>(
    uncertain: Seq<(Uid, NewNodeView<TV, EV>)>,
    seeds: Seq<EdgeDescriptor<EV>>,
    patterns: Seq<EdgeFinderView<EV>>,
    chain: Seq<EdgeDescriptor<EV>>,
    edge: EdgeDescriptor<EV>,
)
    requires
        leads_in(uncertain, seeds, patterns, chain),
        admissible(patterns, edge),
        needs(uncertain, edge.target),
        edges_of(uncertain, chain.last().target).contains(edge),
    ensures
        leads_to(uncertain, seeds, patterns, chain.push(edge), edge.target),
{
    let longer = chain.push(edge);
    assert(longer[0] == chain[0]);
    assert forall|i: int| 0 <= i < longer.len() implies #[trigger] step_fits(
        uncertain,
        patterns,
        longer,
        i,
    ) by {
        if i < chain.len() {
            assert(longer[i] == chain[i]);
            assert(step_fits(uncertain, patterns, chain, i));
        }
    }
    assert forall|i: int| 0 < i < longer.len() implies #[trigger] step_joins(
        uncertain,
        longer,
        i,
    ) by {
        if i < chain.len() {
            assert(longer[i] == chain[i]);
            assert(longer[i - 1] == chain[i - 1]);
            assert(step_joins(uncertain, chain, i));
        } else {
            assert(longer[i - 1] == chain.last());
        }
    }
}

/// The target of a candidate in sight that may render and leads to a node
/// in need of a render edge is reached by a chain.
proof fn lemma_target_reached<TV, EV>(
    uncertain: Seq<(Uid, NewNodeView<TV, EV>)>,
    connected: Set<Uid>,
    seeds: Seq<EdgeDescriptor<EV>>,
    patterns: Seq<EdgeFinderView<EV>>,
    edge: EdgeDescriptor<EV>,
)
    requires
        sound(uncertain, connected, seeds, patterns),
        in_sight(uncertain, connected, seeds, edge),
        admissible(patterns, edge),
        needs(uncertain, edge.target),
    ensures
        reachable(uncertain, seeds, patterns, edge.target),
{
    if seeds.contains(edge) {
        let chain = seq![edge];
        assert(chain[0] == edge);
        assert(step_fits(uncertain, patterns, chain, 0));
        assert(leads_to(uncertain, seeds, patterns, chain, edge.target));
    } else {
        reveal(sound);
        let host = choose|host: Uid| #[trigger] sighted_from(uncertain, connected, host, edge);
        assert(connected.contains(host));
        let chain = choose|chain: Seq<EdgeDescriptor<EV>>| #[trigger]
            leads_to(uncertain, seeds, patterns, chain, host);
        lemma_chain_grows(uncertain, seeds, patterns, chain, edge);
    }
}

/// Taking a candidate and settling it keeps the search in reach.
proof fn lemma_take_reach<TV, EV>(
    search: RenderSearchView<TV, EV>,
    seeds: Seq<EdgeDescriptor<EV>>,
    patterns: Seq<EdgeFinderView<EV>>,
    taken: (usize, EdgeDescriptor<EV>),
)
    requires
        in_reach(search, seeds, patterns),
        search.candidates.contains(taken),
    ensures
        in_reach(
            spec_settled(
                RenderSearchView { candidates: without(search.candidates, taken), ..search },
                taken.1,
            ),
            seeds,
            patterns,
        ),
{
    let left = RenderSearchView { candidates: without(search.candidates, taken), ..search };
    let after = spec_settled(left, taken.1);
    let edge = taken.1;
    let target = edge.target;
    assert(taken == candidate_for(patterns, edge) && admissible(patterns, edge) && in_sight(
        search.uncertain,
        search.connected,
        seeds,
        edge,
    )) by {
        reveal(candidates_sighted);
    }
    assert(among(left.candidates, search.candidates)) by {
        assert forall|c: (usize, EdgeDescriptor<EV>)| #[trigger]
            left.candidates.contains(c) implies search.candidates.contains(c) by {
            lemma_without_between(search.candidates, taken, c);
        }
    }
    assert forall|c: (usize, EdgeDescriptor<EV>)| #[trigger]
        search.candidates.contains(c) implies left.candidates.contains(c) || (seq![edge].contains(
        c.1,
    ) && c == candidate_for(patterns, c.1)) by {
        lemma_without_between(search.candidates, taken, c);
        if c == taken {
            assert(seq![edge][0] == edge);
        }
    }
    let connects = !search.connected.contains(target) && needs(search.uncertain, target);
    assert(search.connected.subset_of(after.connected));
    assert(after.candidates == left.candidates);
    assert(after.uncertain == search.uncertain);
    // The edge that was taken is taken care of by what settling did.
    assert(all_cared(after.uncertain, after.connected, after.candidates, patterns, seq![edge])) by {
        reveal(all_cared);
        assert forall|e: EdgeDescriptor<EV>| #[trigger] seq![edge].contains(e) implies cared_for(
            after.uncertain,
            after.connected,
            after.candidates,
            patterns,
            e,
        ) by {
            assert(e == edge);
        }
    }
    lemma_all_cared_grows(
        search.uncertain,
        search.connected,
        after.connected,
        search.candidates,
        after.candidates,
        patterns,
        seeds,
        seq![edge],
    );
    assert(sound(after.uncertain, after.connected, seeds, patterns)) by {
        if connects {
            lemma_target_reached(search.uncertain, search.connected, seeds, patterns, edge);
        }
        reveal(sound);
    }
    assert(candidates_sighted(
        after.uncertain,
        after.connected,
        after.candidates,
        seeds,
        patterns,
    )) by {
        reveal(candidates_sighted);
        assert forall|c: (usize, EdgeDescriptor<EV>)| #[trigger]
            after.candidates.contains(c) implies c == candidate_for(patterns, c.1) && admissible(
            patterns,
            c.1,
        ) && in_sight(after.uncertain, after.connected, seeds, c.1) by {
            assert(search.candidates.contains(c));
            if !seeds.contains(c.1) {
                let host = choose|host: Uid| #[trigger]
                    sighted_from(search.uncertain, search.connected, host, c.1);
                assert(sighted_from(after.uncertain, after.connected, host, c.1));
            }
        }
    }
    assert(remaining_right(after.uncertain, after.connected, after.remaining)) by {
        reveal(remaining_right);
        if connects {
            assert forall|id: Uid| #[trigger] after.remaining.contains(id) <==> needs(
                after.uncertain,
                id,
            ) && !after.connected.contains(id) by {
                lemma_without_members(search.remaining, target, id);
            }
            lemma_without_members(search.remaining, target, target);
        }
    }
    assert(waiting_known(after.uncertain, after.connected, after.newly_connected)) by {
        reveal(waiting_known);
        if connects {
            let node = lookup(search.uncertain, target)->0;
            assert forall|n: NewNodeView<TV, EV>| #[trigger]
                after.newly_connected.contains(n) implies exists|id: Uid| #[trigger]
                stands_for(after.uncertain, after.connected, id, n) by {
                let j = choose|j: int|
                    0 <= j < after.newly_connected.len() && after.newly_connected[j] == n;
                if j < search.newly_connected.len() {
                    assert(search.newly_connected[j] == n);
                    assert(search.newly_connected.contains(n));
                    let id = choose|id: Uid| #[trigger]
                        stands_for(search.uncertain, search.connected, id, n);
                    assert(stands_for(after.uncertain, after.connected, id, n));
                } else {
                    assert(stands_for(after.uncertain, after.connected, target, n));
                }
            }
        }
    }
    assert(edges_cared(
        after.uncertain,
        after.connected,
        after.candidates,
        after.newly_connected,
        patterns,
    )) by {
        reveal(edges_cared);
        assert forall|id: Uid, e: EdgeDescriptor<EV>| #[trigger]
            sighted_from(after.uncertain, after.connected, id, e) implies cared_for(
            after.uncertain,
            after.connected,
            after.candidates,
            patterns,
            e,
        ) || after.newly_connected.contains(lookup(after.uncertain, id)->0) by {
            if search.connected.contains(id) {
                assert(sighted_from(search.uncertain, search.connected, id, e));
                let n = lookup(search.uncertain, id)->0;
                if search.newly_connected.contains(n) {
                    let j = choose|j: int|
                        0 <= j < search.newly_connected.len() && search.newly_connected[j] == n;
                    assert(after.newly_connected[j] == n);
                } else {
                    assert(cared_for(
                        search.uncertain,
                        search.connected,
                        search.candidates,
                        patterns,
                        e,
                    ));
                    if search.candidates.contains(candidate_for(patterns, e))
                        && !left.candidates.contains(candidate_for(patterns, e)) {
                        lemma_without_between(
                            search.candidates,
                            taken,
                            candidate_for(patterns, e),
                        );
                        assert(e == edge);
                    }
                }
            } else {
                assert(id == target && connects);
                assert(after.newly_connected[search.newly_connected.len() as int] == lookup(
                    search.uncertain,
                    target,
                )->0);
            }
        }
    }
}

/// Once every edge in sight is taken care of and no candidate is left, the
/// node at the end of every chain that leads in is connected.
proof fn lemma_chain_connected<TV, EV>(
    search: RenderSearchView<TV, EV>,
    seeds: Seq<EdgeDescriptor<EV>>,
    patterns: Seq<EdgeFinderView<EV>>,
    chain: Seq<EdgeDescriptor<EV>>,
)
    requires
        in_reach(search, seeds, patterns),
        search.candidates.len() == 0,
        search.newly_connected.len() == 0,
        leads_in(search.uncertain, seeds, patterns, chain),
    ensures
        search.connected.contains(chain.last().target),
    decreases chain.len(),
{
    let last = chain.last();
    assert(chain[chain.len() - 1] == last);
    assert(step_fits(search.uncertain, patterns, chain, chain.len() - 1));
    assert(!search.candidates.contains(candidate_for(patterns, last)));
    if chain.len() == 1 {
        reveal(all_cared);
        assert(seeds.contains(last));
    } else {
        let shorter = chain.drop_last();
        assert(shorter[0] == chain[0]);
        assert(leads_in(search.uncertain, seeds, patterns, shorter)) by {
            assert forall|i: int| 0 <= i < shorter.len() implies #[trigger] step_fits(
                search.uncertain,
                patterns,
                shorter,
                i,
            ) by {
                assert(shorter[i] == chain[i]);
                assert(step_fits(search.uncertain, patterns, chain, i));
            }
            assert forall|i: int| 0 < i < shorter.len() implies #[trigger] step_joins(
                search.uncertain,
                shorter,
                i,
            ) by {
                assert(shorter[i] == chain[i]);
                assert(shorter[i - 1] == chain[i - 1]);
                assert(step_joins(search.uncertain, chain, i));
            }
        }
        lemma_chain_connected(search, seeds, patterns, shorter);
        let host = shorter.last().target;
        assert(shorter.last() == chain[chain.len() - 2]);
        assert(step_joins(search.uncertain, chain, chain.len() - 1));
        assert(edges_of(search.uncertain, host).contains(last));
        assert(sighted_from(search.uncertain, search.connected, host, last));
        reveal(edges_cared);
    }
}

/// Where no first new node is found among identifiers, none of them is a
/// new node.
proof fn lemma_first_new<TV, EV>(new_nodes: Seq<(Uid, NewNodeView<TV, EV>)>, ids: Seq<Uid>)
    ensures
        spec_first_new(new_nodes, ids) is None ==> forall|id: Uid|
            ids.contains(id) ==> lookup(new_nodes, id) is None,
    decreases ids.len(),
{
    if ids.len() > 0 {
        lemma_first_new(new_nodes, ids.skip(1));
        if spec_first_new(new_nodes, ids) is None {
            assert forall|id: Uid| ids.contains(id) implies lookup(new_nodes, id) is None by {
                lemma_skip_members(ids, id);
            }
        }
    }
}

/// Whether the marks for deletion of `after` are those of `before` and the
/// nodes in need of a render edge that no chain leads to.
pub open spec fn unreached_are_marked<TV, EV>(
    after: Seq<Uid>,
    before: Seq<Uid>,
    uncertain: Seq<(Uid, NewNodeView<TV, EV>)>,
    seeds: Seq<EdgeDescriptor<EV>>,
    patterns: Seq<EdgeFinderView<EV>>,
) -> bool {
    forall|id: Uid| #[trigger]
        after.contains(id) <==> before.contains(id) || (needs(uncertain, id) && !reachable(
            uncertain,
            seeds,
            patterns,
            id,
        ))
}

/// Where the search has come to its end with every edge taken care of, the
/// nodes that remain are the nodes that no chain leads to.
proof fn lemma_remaining_unreached<TV, EV>(
    search: RenderSearchView<TV, EV>,
    seeds: Seq<EdgeDescriptor<EV>>,
    patterns: Seq<EdgeFinderView<EV>>,
    id: Uid,
)
    requires
        in_reach(search, seeds, patterns),
        search.candidates.len() == 0 && search.newly_connected.len() == 0
            || search.remaining.len() == 0,
    ensures
        search.remaining.contains(id) <==> needs(search.uncertain, id) && !reachable(
            search.uncertain,
            seeds,
            patterns,
            id,
        ),
{
    reveal(remaining_right);
    if needs(search.uncertain, id) {
        if reachable(search.uncertain, seeds, patterns, id) {
            if search.remaining.len() > 0 {
                let chain = choose|chain: Seq<EdgeDescriptor<EV>>| #[trigger]
                    leads_to(search.uncertain, seeds, patterns, chain, id);
                lemma_chain_connected(search, seeds, patterns, chain);
            }
        } else {
            if search.connected.contains(id) {
                reveal(sound);
            }
        }
    }
}

/// Where a search that is in reach ends without a new error, the nodes
/// marked for deletion are those that were marked before and the nodes in
/// need of a render edge that no chain leads to.
proof fn lemma_rounds_reach<TV, EV, AV>(
    staged: BuildBlueprintView<TV, EV>,
    search: RenderSearchView<TV, EV>,
    graph: Seq<(Uid, NodeView<TV, EV, AV>)>,
    patterns: Seq<EdgeFinderView<EV>>,
    fuel: nat,
    seeds: Seq<EdgeDescriptor<EV>>,
)
    requires
        in_reach(search, seeds, patterns),
    ensures
        staged.spec_render_rounds(search, graph, patterns, fuel).errors.len()
            >= staged.errors.len(),
        staged.spec_render_rounds(search, graph, patterns, fuel).errors.len()
            == staged.errors.len() ==> unreached_are_marked(
            staged.spec_render_rounds(search, graph, patterns, fuel).delete_nodes,
            staged.delete_nodes,
            search.uncertain,
            seeds,
            patterns,
        ),
    decreases fuel,
{
    let after = staged.spec_render_rounds(search, graph, patterns, fuel);
    if search.remaining.len() == 0 {
        assert forall|id: Uid| #[trigger]
            after.delete_nodes.contains(id) <==> staged.delete_nodes.contains(id) || (needs(
                search.uncertain,
                id,
            ) && !reachable(search.uncertain, seeds, patterns, id)) by {
            lemma_remaining_unreached(search, seeds, patterns, id);
        }
    } else if fuel == 0 {
    } else {
        lemma_expanded_reach(search, seeds, patterns);
        let offered = search.spec_expanded(patterns);
        if offered.candidates.len() == 0 {
            lemma_first_new(staged.new_nodes, offered.remaining);
            match spec_first_new(staged.new_nodes, offered.remaining) {
                Some(id) => {},
                None => {
                    let marked = BuildBlueprintView {
                        delete_nodes: union_seq(staged.delete_nodes, offered.remaining),
                        ..staged
                    };
                    lemma_union_members(staged.delete_nodes, offered.remaining);
                    lemma_delete_each_carries(marked, graph, marked.delete_nodes, graph.len());
                    assert forall|id: Uid| #[trigger]
                        after.delete_nodes.contains(id) <==> staged.delete_nodes.contains(id) || (
                        needs(search.uncertain, id) && !reachable(
                            search.uncertain,
                            seeds,
                            patterns,
                            id,
                        )) by {
                        lemma_remaining_unreached(offered, seeds, patterns, id);
                    }
                },
            }
        } else {
            lemma_best_in_range(offered.candidates);
            let taken = offered.candidates[spec_best(offered.candidates)];
            assert(offered.candidates.contains(taken));
            let left = RenderSearchView { candidates: without(offered.candidates, taken), ..offered };
            lemma_take_reach(offered, seeds, patterns, taken);
            let settled = staged.spec_settle(left, graph, taken.1);
            crate::laws::cascade::lemma_release_frame(
                staged.spec_assign(graph, taken.1),
                graph,
                taken.1,
            );
            assert(settled.delete_nodes == staged.delete_nodes && settled.errors == staged.errors);
            lemma_rounds_reach(
                settled,
                spec_settled(left, taken.1),
                graph,
                patterns,
                (fuel - 1) as nat,
                seeds,
            );
            assert(spec_settled(left, taken.1).uncertain == search.uncertain);
        }
    }
}

/// A union with a sequence without duplicates is without duplicates.
proof fn lemma_union_distinct<A>(s: Seq<A>, t: Seq<A>)
    requires
        s.no_duplicates(),
    ensures
        union_seq(s, t).no_duplicates(),
    decreases t.len(),
{
    if t.len() > 0 {
        lemma_union_distinct(s, t.drop_last());
        lemma_insert_keeps_distinct(union_seq(s, t.drop_last()), t.last());
    }
}

/// The nodes that a transaction creates or displaces.
pub open spec fn nodes_in_need<TV, EV>(staged: BuildBlueprintView<TV, EV>) -> Seq<
    (Uid, NewNodeView<TV, EV>),
> {
    spec_extend(staged.new_nodes, staged.displaced_nodes)
}

/// The ways in: edges from a node that stays into a node that a
/// transaction creates or displaces.
pub open spec fn ways_in<TV, EV>(staged: BuildBlueprintView<TV, EV>) -> Seq<EdgeDescriptor<EV>> {
    staged.entry_edges + staged.displaced_entry_edges
}

/// Whether each of `few` is one of `seeds`.
pub open spec fn among_seeds<EV>(few: Seq<EdgeDescriptor<EV>>, seeds: Seq<EdgeDescriptor<EV>>) -> bool {
    forall|e: EdgeDescriptor<EV>| #[trigger] few.contains(e) ==> seeds.contains(e)
}

/// Whether the search is in reach but for the ways in that are not taken
/// care of yet: those of `seeds` that are not in `done`.
pub open spec fn in_reach_but<TV, EV>(
    search: RenderSearchView<TV, EV>,
    seeds: Seq<EdgeDescriptor<EV>>,
    patterns: Seq<EdgeFinderView<EV>>,
    done: Seq<EdgeDescriptor<EV>>,
) -> bool {
    &&& sound(search.uncertain, search.connected, seeds, patterns)
    &&& all_cared(search.uncertain, search.connected, search.candidates, patterns, done)
    &&& edges_cared(
        search.uncertain,
        search.connected,
        search.candidates,
        search.newly_connected,
        patterns,
    )
    &&& candidates_sighted(search.uncertain, search.connected, search.candidates, seeds, patterns)
    &&& waiting_known(search.uncertain, search.connected, search.newly_connected)
    &&& remaining_right(search.uncertain, search.connected, search.remaining)
}

/// Offering ways in takes care of them.
proof fn lemma_offer_all_seeds<TV, EV>(
    search: RenderSearchView<TV, EV>,
    seeds: Seq<EdgeDescriptor<EV>>,
    patterns: Seq<EdgeFinderView<EV>>,
    edges: Seq<EdgeDescriptor<EV>>,
    done: Seq<EdgeDescriptor<EV>>,
)
    requires
        in_reach_but(search, seeds, patterns, done),
        among_seeds(edges, seeds),
        seeds =~= done + edges,
    ensures
        in_reach(search.spec_offer_all(patterns, edges), seeds, patterns),
        search.spec_offer_all(patterns, edges) == (RenderSearchView {
            candidates: search.spec_offer_all(patterns, edges).candidates,
            ..search
        }),
    decreases edges.len(),
{
    if edges.len() > 0 {
        let first = search.spec_offer(patterns, edges[0]);
        let offered = candidate_for(patterns, edges[0]);
        lemma_skip_members(edges, edges[0]);
        assert forall|c: (usize, EdgeDescriptor<EV>)| #[trigger]
            first.candidates.contains(c) <==> search.candidates.contains(c) || (c == offered
                && !search.connected.contains(edges[0].target) && admissible(
                patterns,
                edges[0],
            )) by {
            lemma_insert_members(search.candidates, offered, c);
        }
        assert(among(search.candidates, first.candidates));
        let next_done = done.push(edges[0]);
        assert(all_cared(
            first.uncertain,
            first.connected,
            first.candidates,
            patterns,
            next_done,
        )) by {
            reveal(all_cared);
            assert forall|e: EdgeDescriptor<EV>| #[trigger] next_done.contains(e) implies cared_for(
                first.uncertain,
                first.connected,
                first.candidates,
                patterns,
                e,
            ) by {
                let j = choose|j: int| 0 <= j < next_done.len() && next_done[j] == e;
                if j < done.len() {
                    assert(done[j] == e);
                    assert(done.contains(e));
                    if search.candidates.contains(candidate_for(patterns, e)) {
                        assert(first.candidates.contains(candidate_for(patterns, e)));
                    }
                }
            }
        }
        lemma_edges_cared_grows(
            search.uncertain,
            search.connected,
            search.candidates,
            first.candidates,
            search.newly_connected,
            patterns,
        );
        assert(candidates_sighted(
            first.uncertain,
            first.connected,
            first.candidates,
            seeds,
            patterns,
        )) by {
            reveal(candidates_sighted);
        }
        assert(among_seeds(edges.skip(1), seeds)) by {
            assert forall|e: EdgeDescriptor<EV>| #[trigger] edges.skip(1).contains(e) implies seeds.contains(
                e,
            ) by {
                lemma_skip_members(edges, e);
            }
        }
        assert(next_done + edges.skip(1) =~= done + edges);
        lemma_offer_all_seeds(first, seeds, patterns, edges.skip(1), next_done);
    } else {
        assert(done + edges =~= done);
    }
}

/// Where the choice of render edges, without a root and for nodes that
/// have no render edge yet, adds no error, it deletes, besides the nodes
/// that were marked before, exactly the nodes in need of a render edge to
/// which no chain of edges that may render leads from a node that stays.
pub proof fn law_unreachable_nodes_are_deleted<TV, EV, AV>(
    staged: BuildBlueprintView<TV, EV>,
    graph: Seq<(Uid, NodeView<TV, EV, AV>)>,
    patterns: Seq<EdgeFinderView<EV>>,
)
    ensures
        staged.spec_set_render_edges(graph, patterns, None).errors.len() >= staged.errors.len(),
        staged.spec_set_render_edges(graph, patterns, None).errors.len() == staged.errors.len()
            ==> unreached_are_marked(
            staged.spec_set_render_edges(graph, patterns, None).delete_nodes,
            staged.delete_nodes,
            nodes_in_need(staged),
            ways_in(staged),
            patterns,
        ),
{
    let uncertain = nodes_in_need(staged);
    let seeds = ways_in(staged);
    let begin = RenderSearchView::begin(uncertain);
    lemma_union_members(Seq::<Uid>::empty(), keys_of(uncertain));
    lemma_union_distinct(Seq::<Uid>::empty(), keys_of(uncertain));
    assert(in_reach_but(begin, seeds, patterns, Seq::empty())) by {
        reveal(sound);
        reveal(all_cared);
        reveal(edges_cared);
        reveal(candidates_sighted);
        reveal(waiting_known);
        reveal(remaining_right);
        assert forall|id: Uid| #[trigger] begin.remaining.contains(id) <==> needs(
            begin.uncertain,
            id,
        ) && !begin.connected.contains(id) by {
            lemma_keys_are_found(uncertain, id);
            assert(!Seq::<Uid>::empty().contains(id));
        }
    }
    assert(among_seeds(seeds, seeds));
    assert(Seq::<EdgeDescriptor<EV>>::empty() + seeds =~= seeds);
    lemma_offer_all_seeds(begin, seeds, patterns, seeds, Seq::empty());
    lemma_offer_all_split(begin, patterns, staged.entry_edges, staged.displaced_entry_edges);
    let ready = begin.spec_offer_all(patterns, staged.entry_edges).spec_offer_all(
        patterns,
        staged.displaced_entry_edges,
    );
    lemma_rounds_reach(staged, ready, graph, patterns, usize::MAX as nat, seeds);
}

/// Where a transaction without a root is finalized with success, the nodes
/// that it deletes are the nodes of the graph that were marked for
/// deletion, and the nodes of the graph that lost their render edge and to
/// which no chain of edges that may render leads from a node that stays.
pub proof fn law_cascade_closure<TV, EV, AV>(
    staged: BuildBlueprintView<TV, EV>,
    graph: Seq<(Uid, NodeView<TV, EV, AV>)>,
    specifiers: Option<Seq<crate::blueprint::build_blueprint::AllowedRenderEdgeSpecifier<EV>>>,
    sealed: crate::blueprint::finalized_blueprint::FinalizedBlueprintView<TV, EV>,
)
    requires
        staged.spec_finalize(graph, specifiers, None) == Ok::<
            crate::blueprint::finalized_blueprint::FinalizedBlueprintView<TV, EV>,
            Seq<crate::common::GraphErrorView>,
        >(sealed),
    ensures
        forall|id: Uid| #[trigger]
            lookup(sealed.delete_nodes, id) is Some <==> lookup(graph, id) is Some && (
            staged.delete_nodes.contains(id) || (needs(
                nodes_in_need(staged.spec_cascaded(graph)),
                id,
            ) && !reachable(
                nodes_in_need(staged.spec_cascaded(graph)),
                ways_in(staged.spec_cascaded(graph)),
                crate::blueprint::render::spec_render_patterns(specifiers),
                id,
            ))),
{
    let patterns = crate::blueprint::render::spec_render_patterns(specifiers);
    let cascaded = staged.spec_cascaded(graph);
    crate::laws::cascade::lemma_cascading_carries(staged, graph);
    law_unreachable_nodes_are_deleted(cascaded, graph, patterns);
    let chosen = cascaded.spec_set_render_edges(graph, patterns, None);
    crate::laws::render::lemma_seal_grows(
        crate::blueprint::finalize::Sealed { updates: Seq::empty(), errors: chosen.errors },
        graph,
        chosen.update_nodes,
    );
    assert(chosen.errors.len() == 0);
    assert(sealed.delete_nodes == crate::blueprint::finalize::spec_snapshot_each(
        Seq::empty(),
        graph,
        chosen.delete_nodes,
    ));
    assert forall|id: Uid| #[trigger]
        lookup(sealed.delete_nodes, id) is Some <==> lookup(graph, id) is Some && (
        staged.delete_nodes.contains(id) || (needs(nodes_in_need(cascaded), id) && !reachable(
            nodes_in_need(cascaded),
            ways_in(cascaded),
            patterns,
            id,
        ))) by {
        crate::laws::cascade::lemma_snapshots(Seq::empty(), graph, chosen.delete_nodes, id);
        assert(chosen.delete_nodes.contains(id) <==> cascaded.delete_nodes.contains(id) || (needs(
            nodes_in_need(cascaded),
            id,
        ) && !reachable(nodes_in_need(cascaded), ways_in(cascaded), patterns, id)));
    }
}

/// Offering two lists one after the other is offering them as one.
proof fn lemma_offer_all_split<TV, EV>(
    search: RenderSearchView<TV, EV>,
    patterns: Seq<EdgeFinderView<EV>>,
    first: Seq<EdgeDescriptor<EV>>,
    second: Seq<EdgeDescriptor<EV>>,
)
    ensures
        search.spec_offer_all(patterns, first + second) == search.spec_offer_all(
            patterns,
            first,
        ).spec_offer_all(patterns, second),
    decreases first.len(),
{
    if first.len() > 0 {
        assert((first + second)[0] == first[0]);
        assert((first + second).skip(1) =~= first.skip(1) + second);
        lemma_offer_all_split(search.spec_offer(patterns, first[0]), patterns, first.skip(1), second);
    } else {
        assert(first + second =~= second);
    }
}

} // verus!
