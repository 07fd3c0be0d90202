//! The choice of render edges: every node that the transaction creates or
//! displaces gets the one edge through which it is rendered, found by
//! growing outwards from what is connected already.

use vstd::prelude::*;
use vstd::string::StringExecFns;

use crate::blueprint::build_blueprint::{
    AllowedRenderEdgeSpecifier, BuildBlueprint, BuildBlueprintView,
};
use crate::blueprint::new_node::{spec_retag, NewNode, NewNodeView, TempId};
use crate::blueprint::update_node::{items_of, UpdateNode};
use crate::collections::seq_model::{
    first_match, has_key, insert_unique, keys_of, lemma_first_match_is, lemma_skip_none,
    lemma_skip_step, lemma_take_all, lemma_take_step, lemma_view_all_push, lookup, put, union_seq,
    view_all, without,
};
use crate::collections::uid_index::{
    uid_map_get, uid_set_contains, uid_set_insert, uid_set_members, uid_set_new, UidSet,
};
use crate::collections::{VecMap, VecSet};
use crate::common::graph_error::decimal_text;
use crate::common::{
    EdgeDescriptor, EdgeDir, EdgeFinder, EdgeFinderView, GraphError, GraphErrorView, GraphTraits,
    GraphValue, Uid,
};
use crate::graph::reactive_node::build_reactive_node::spec_extend;
use crate::graph::reactive_node::read_reactive_node::NodeView;
use crate::graph::view_graph::ViewGraph;

verus! {

/// The error of a root alias that no node of the transaction has.
pub open spec fn entry_point_not_found(temp: Uid) -> GraphErrorView {
    GraphErrorView::Blueprint(
        "set_render_edges: entry_point_temp_id not found in temp_id_map\nTemp Id: "@
            + decimal_text(temp as nat),
    )
}

/// The error of a root that the transaction neither creates nor displaces.
pub open spec fn entry_point_not_staged(id: Uid) -> GraphErrorView {
    GraphErrorView::Blueprint(
        "set_render_edges: entry_point is not a node of this blueprint\nNode Id: "@ + decimal_text(
            id as nat,
        ),
    )
}

/// The error of a root that is rendered through an edge.
pub open spec fn entry_point_rendered(id: Uid) -> GraphErrorView {
    GraphErrorView::Blueprint(
        "set_render_edges: entry_point cannot have a render edge\nNode Id: "@ + decimal_text(
            id as nat,
        ),
    )
}

/// The error of a new node that no render edge reaches.
pub open spec fn unreachable_new_node(id: Uid) -> GraphErrorView {
    GraphErrorView::Blueprint(
        "could not find render edges for all new nodes\nNode ID: "@ + decimal_text(id as nat),
    )
}

/// The error of a search that took more rounds than a machine can count.
pub open spec fn search_exhausted() -> GraphErrorView {
    GraphErrorView::Blueprint("set_render_edges: the search did not come to an end"@)
}

/// The pattern of the edges that a specifier allows.
pub open spec fn pattern_of<EV>(specifier: AllowedRenderEdgeSpecifier<EV>) -> EdgeFinderView<EV> {
    EdgeFinderView {
        edge_type: Some(seq![specifier.edge_type]),
        dir: Some(specifier.dir),
        ..EdgeFinderView::any()
    }
}

/// The patterns of the edges that may render, in order of preference:
/// those of the specifiers, or, without any, every edge that leaves.
pub open spec fn spec_render_patterns<EV>(
    specifiers: Option<Seq<AllowedRenderEdgeSpecifier<EV>>>,
) -> Seq<EdgeFinderView<EV>> {
    match specifiers {
        Some(s) => Seq::new(s.len(), |i: int| pattern_of(s[i])),
        None => seq![EdgeFinderView { dir: Some(EdgeDir::Emit), ..EdgeFinderView::any() }],
    }
}

/// The rank of `edge`: the position of the first pattern that it matches,
/// or the number of patterns where it matches none.
pub open spec fn rank_of<EV>(patterns: Seq<EdgeFinderView<EV>>, edge: EdgeDescriptor<EV>) -> int {
    first_match(patterns, |f: EdgeFinderView<EV>| f.spec_matches(edge))
}

/// The position of the candidate to take next: the first of those with the
/// lowest rank.
pub open spec fn spec_best<EV>(candidates: Seq<(usize, EdgeDescriptor<EV>)>) -> int
    decreases candidates.len(),
{
    if candidates.len() <= 1 {
        0
    } else {
        let best = spec_best(candidates.drop_last());
        if candidates.last().0 < candidates[best].0 {
            candidates.len() - 1
        } else {
            best
        }
    }
}

/// The best of some candidates is one of them.
pub proof fn lemma_best_in_range<EV>(candidates: Seq<(usize, EdgeDescriptor<EV>)>)
    requires
        candidates.len() > 0,
    ensures
        0 <= spec_best(candidates) < candidates.len(),
    decreases candidates.len(),
{
    if candidates.len() > 1 {
        lemma_best_in_range(candidates.drop_last());
    }
}

/// The pattern of the edge `connection` where the graph holds it as a
/// render edge already.
pub open spec fn rendering_pattern<EV>(connection: EdgeDescriptor<EV>) -> EdgeFinderView<EV> {
    EdgeFinderView {
        host: Some(set![connection.host]),
        edge_type: Some(seq![connection.edge_type]),
        dir: Some(connection.dir),
        target: Some(set![connection.target]),
        render_info: Some(Some(EdgeDir::Emit)),
        match_all: None,
    }
}

/// The pattern of the edges through which their host is rendered.
pub open spec fn rendered_through<EV>() -> EdgeFinderView<EV> {
    EdgeFinderView {
        render_info: Some(Some(EdgeDir::Recv)),
        match_all: Some(true),
        ..EdgeFinderView::any()
    }
}

/// An edge that may become a render edge, with its rank.
#[derive(Debug, Clone)]
pub struct Candidate<E> {
    pub rank: usize,
    pub edge: EdgeDescriptor<E>,
}

impl<E: View> View for Candidate<E> {
    type V = (usize, EdgeDescriptor<E::V>);

    open spec fn view(&self) -> (usize, EdgeDescriptor<E::V>) {
        (self.rank, self.edge@)
    }
}

impl<E: GraphTraits> GraphValue for Candidate<E> {
    fn same(&self, other: &Self) -> (b: bool) {
        self.rank == other.rank && self.edge.same(&other.edge)
    }

    fn duplicate(&self) -> (r: Self) {
        Candidate { rank: self.rank, edge: self.edge.duplicate() }
    }
}

/// The state of the search for render edges.
#[derive(Debug)]
pub struct RenderSearch<T, E> {
    /// The nodes that need a render edge: those that the transaction
    /// creates and those that it displaces.
    pub uncertain: VecMap<Uid, NewNode<T, E>>,
    pub candidates: VecSet<Candidate<E>>,
    pub connected: UidSet,
    /// The nodes connected since their edges were last offered.
    pub newly_connected: Vec<NewNode<T, E>>,
    pub remaining: VecSet<Uid>,
}

/// What a [`RenderSearch`] holds.
pub struct RenderSearchView<TV, EV> {
    pub uncertain: Seq<(Uid, NewNodeView<TV, EV>)>,
    pub candidates: Seq<(usize, EdgeDescriptor<EV>)>,
    pub connected: Set<Uid>,
    pub newly_connected: Seq<NewNodeView<TV, EV>>,
    pub remaining: Seq<Uid>,
}

impl<T: View, E: View> View for RenderSearch<T, E> {
    type V = RenderSearchView<T::V, E::V>;

    open spec fn view(&self) -> RenderSearchView<T::V, E::V> {
        RenderSearchView {
            uncertain: self.uncertain@,
            candidates: self.candidates@,
            connected: uid_set_members(self.connected),
            newly_connected: view_all(self.newly_connected@),
            remaining: self.remaining@,
        }
    }
}

impl<TV, EV> RenderSearchView<TV, EV> {
    /// The search before anything is connected.
    pub open spec fn begin(uncertain: Seq<(Uid, NewNodeView<TV, EV>)>) -> Self {
        RenderSearchView {
            uncertain,
            candidates: Seq::empty(),
            connected: Set::empty(),
            newly_connected: Seq::empty(),
            remaining: union_seq(Seq::empty(), keys_of(uncertain)),
        }
    }

    /// With `edge` among the candidates where a pattern allows it and its
    /// target is not connected yet.
    pub open spec fn spec_offer(
        self,
        patterns: Seq<EdgeFinderView<EV>>,
        edge: EdgeDescriptor<EV>,
    ) -> Self {
        if !self.connected.contains(edge.target) && rank_of(patterns, edge) < patterns.len() {
            RenderSearchView {
                candidates: insert_unique(
                    self.candidates,
                    (rank_of(patterns, edge) as usize, edge),
                ),
                ..self
            }
        } else {
            self
        }
    }

    /// With each of `edges` offered, in order.
    pub open spec fn spec_offer_all(
        self,
        patterns: Seq<EdgeFinderView<EV>>,
        edges: Seq<EdgeDescriptor<EV>>,
    ) -> Self
        decreases edges.len(),
    {
        if edges.len() == 0 {
            self
        } else {
            self.spec_offer(patterns, edges[0]).spec_offer_all(patterns, edges.skip(1))
        }
    }

    /// With the edges of each of `nodes` offered, node by node.
    pub open spec fn spec_expand(
        self,
        patterns: Seq<EdgeFinderView<EV>>,
        nodes: Seq<NewNodeView<TV, EV>>,
    ) -> Self
        decreases nodes.len(),
    {
        if nodes.len() == 0 {
            self
        } else {
            self.spec_offer_all(patterns, nodes[0].add_edges).spec_expand(patterns, nodes.skip(1))
        }
    }

    /// With the edges of every newly connected node offered.
    pub open spec fn spec_expanded(self, patterns: Seq<EdgeFinderView<EV>>) -> Self {
        (RenderSearchView { newly_connected: Seq::empty(), ..self }).spec_expand(
            patterns,
            self.newly_connected,
        )
    }

    /// With node `id` connected.
    pub open spec fn spec_connect(self, id: Uid, node: NewNodeView<TV, EV>) -> Self {
        RenderSearchView {
            connected: self.connected.insert(id),
            remaining: without(self.remaining, id),
            newly_connected: self.newly_connected.push(node),
            ..self
        }
    }
}

/// The first of `ids` that is a node which the transaction creates.
pub open spec fn spec_first_new<TV, EV>(
    new_nodes: Seq<(Uid, NewNodeView<TV, EV>)>,
    ids: Seq<Uid>,
) -> Option<Uid>
    decreases ids.len(),
{
    if ids.len() == 0 {
        None
    } else if has_key(new_nodes, ids[0]) {
        Some(ids[0])
    } else {
        spec_first_new(new_nodes, ids.skip(1))
    }
}

impl<TV, EV> BuildBlueprintView<TV, EV> {
    /// With `connection` as the render edge of its target: the edge is
    /// marked on both of its sides, in the record of a new node or as a
    /// change to a node of the graph. Nothing is staged for a node of the
    /// graph that holds the edge as a render edge already and is to keep
    /// it.
    pub open spec fn spec_assign<AV>(
        self,
        graph: Seq<(Uid, NodeView<TV, EV, AV>)>,
        connection: EdgeDescriptor<EV>,
    ) -> Self {
        let held = match lookup(graph, connection.host) {
            Some(node) => node.spec_search_for_edge(rendering_pattern(connection)) is Some
                && !self.spec_takes(connection.spec_with_render(Some(EdgeDir::Emit))),
            None => false,
        };
        let hosted = match lookup(self.new_nodes, connection.host) {
            Some(host) => BuildBlueprintView {
                new_nodes: put(
                    self.new_nodes,
                    connection.host,
                    NewNodeView {
                        add_edges: spec_retag(host.add_edges, connection, Some(EdgeDir::Emit)),
                        ..host
                    },
                ),
                ..self
            },
            None => if held {
                self
            } else {
                BuildBlueprintView {
                    update_nodes: put(
                        self.update_nodes,
                        connection.host,
                        self.update_node_or_blank(
                            connection.host,
                        ).spec_update_edge_render_info(connection, Some(EdgeDir::Emit)),
                    ),
                    ..self
                }
            },
        };
        match lookup(hosted.new_nodes, connection.target) {
            Some(target) => BuildBlueprintView {
                new_nodes: put(
                    hosted.new_nodes,
                    connection.target,
                    NewNodeView {
                        add_edges: spec_retag(
                            target.add_edges,
                            connection.spec_invert(),
                            Some(EdgeDir::Recv),
                        ),
                        ..target
                    },
                ),
                ..hosted
            },
            None => if held {
                hosted
            } else {
                BuildBlueprintView {
                    update_nodes: put(
                        hosted.update_nodes,
                        connection.target,
                        hosted.update_node_or_blank(
                            connection.target,
                        ).spec_update_edge_render_info(
                            connection.spec_invert(),
                            Some(EdgeDir::Recv),
                        ),
                    ),
                    ..hosted
                }
            },
        }
    }

    /// Whether the removal of `edge` from its host is staged.
    pub open spec fn spec_takes(self, edge: EdgeDescriptor<EV>) -> bool {
        lookup(self.update_nodes, edge.host) is Some && items_of(
            lookup(self.update_nodes, edge.host)->0.remove_edges,
        ).contains(edge)
    }

    /// With `edge` staged without render mark on both of its sides, as
    /// changes to nodes of the graph.
    pub open spec fn spec_unmark(self, edge: EdgeDescriptor<EV>) -> Self {
        let first = BuildBlueprintView {
            update_nodes: put(
                self.update_nodes,
                edge.host,
                self.update_node_or_blank(edge.host).spec_update_edge_render_info(edge, None),
            ),
            ..self
        };
        BuildBlueprintView {
            update_nodes: put(
                first.update_nodes,
                edge.target,
                first.update_node_or_blank(edge.target).spec_update_edge_render_info(
                    edge.spec_invert(),
                    None,
                ),
            ),
            ..first
        }
    }

    /// With each of `olds` staged without render mark on both sides, but
    /// for `keep` and for those whose removal is staged.
    pub open spec fn spec_release_each(
        self,
        olds: Seq<EdgeDescriptor<EV>>,
        keep: EdgeDescriptor<EV>,
    ) -> Self
        decreases olds.len(),
    {
        if olds.len() == 0 {
            self
        } else {
            (if olds[0] == keep || self.spec_takes(olds[0]) {
                self
            } else {
                self.spec_unmark(olds[0])
            }).spec_release_each(olds.skip(1), keep)
        }
    }

    /// With the target of `connection` released from the render edges that
    /// the graph holds on it: each of them stays as an edge without render
    /// mark, but for the mirror of `connection` itself and for those whose
    /// removal is staged.
    pub open spec fn spec_release<AV>(
        self,
        graph: Seq<(Uid, NodeView<TV, EV, AV>)>,
        connection: EdgeDescriptor<EV>,
    ) -> Self {
        match lookup(graph, connection.target) {
            None => self,
            Some(node) => match node.spec_search_for_edge(rendered_through()) {
                None => self,
                Some(olds) => self.spec_release_each(
                    olds,
                    connection.spec_invert().spec_with_render(Some(EdgeDir::Recv)),
                ),
            },
        }
    }

    /// What is staged once `connection` is settled: nothing new where its
    /// target is connected already, is no node in need of a render edge, or
    /// is rendered through an edge from a connected node; else
    /// `connection` is assigned, and its target released from the render
    /// edges that the graph holds on it.
    pub open spec fn spec_settle<AV>(
        self,
        search: RenderSearchView<TV, EV>,
        graph: Seq<(Uid, NodeView<TV, EV, AV>)>,
        connection: EdgeDescriptor<EV>,
    ) -> Self {
        if search.connected.contains(connection.target) {
            self
        } else {
            match lookup(search.uncertain, connection.target) {
                None => self,
                Some(node) => {
                    if node.spec_render_edge() is Some && search.connected.contains(
                        node.spec_render_edge()->0.target,
                    ) {
                        self
                    } else {
                        self.spec_assign(graph, connection).spec_release(graph, connection)
                    }
                },
            }
        }
    }

    /// What the search gives up with: the error of the first remaining node
    /// that is new, or, where all remaining nodes are displaced ones, their
    /// deletion.
    pub open spec fn spec_give_up<AV>(
        self,
        remaining: Seq<Uid>,
        graph: Seq<(Uid, NodeView<TV, EV, AV>)>,
    ) -> Self {
        match spec_first_new(self.new_nodes, remaining) {
            Some(id) => self.spec_fail(unreachable_new_node(id)),
            None => (BuildBlueprintView {
                delete_nodes: union_seq(self.delete_nodes, remaining),
                ..self
            }).spec_finalize_delete_nodes(graph),
        }
    }

    /// What is staged after the rounds of the search. A round offers the
    /// edges of the newly connected nodes, takes the best candidate and
    /// settles it; the search ends when no node remains, and gives up when
    /// no candidate is left. More than `fuel` rounds are an error.
    pub open spec fn spec_render_rounds<AV>(
        self,
        search: RenderSearchView<TV, EV>,
        graph: Seq<(Uid, NodeView<TV, EV, AV>)>,
        patterns: Seq<EdgeFinderView<EV>>,
        fuel: nat,
    ) -> Self
        decreases fuel,
    {
        if search.remaining.len() == 0 {
            self
        } else if fuel == 0 {
            self.spec_fail(search_exhausted())
        } else {
            let offered = search.spec_expanded(patterns);
            if offered.candidates.len() == 0 {
                self.spec_give_up(offered.remaining, graph)
            } else {
                let taken = offered.candidates[spec_best(offered.candidates)];
                let left = RenderSearchView {
                    candidates: without(offered.candidates, taken),
                    ..offered
                };
                self.spec_settle(left, graph, taken.1).spec_render_rounds(
                    spec_settled(left, taken.1),
                    graph,
                    patterns,
                    (fuel - 1) as nat,
                )
            }
        }
    }

    /// What is staged once every node that the transaction creates or
    /// displaces has its render edge. With a root alias the search starts
    /// at that node, which gets no render edge; without, at the ways in.
    /// The search takes no more rounds than a `usize` counts.
    pub open spec fn spec_set_render_edges<AV>(
        self,
        graph: Seq<(Uid, NodeView<TV, EV, AV>)>,
        patterns: Seq<EdgeFinderView<EV>>,
        entry_point: Option<TempId>,
    ) -> Self {
        let begin = RenderSearchView::begin(spec_extend(self.new_nodes, self.displaced_nodes));
        match entry_point {
            Some(temp) => {
                if !self.temp_id_map.dom().contains(temp) {
                    self.spec_fail(entry_point_not_found(temp))
                } else {
                    let root = self.temp_id_map[temp];
                    match lookup(begin.uncertain, root) {
                        None => self.spec_fail(entry_point_not_staged(root)),
                        Some(node) => {
                            if node.spec_render_edge() is Some {
                                self.spec_fail(entry_point_rendered(root))
                            } else {
                                self.spec_render_rounds(
                                    begin.spec_connect(root, node),
                                    graph,
                                    patterns,
                                    usize::MAX as nat,
                                )
                            }
                        },
                    }
                }
            },
            None => self.spec_render_rounds(
                begin.spec_offer_all(patterns, self.entry_edges).spec_offer_all(
                    patterns,
                    self.displaced_entry_edges,
                ),
                graph,
                patterns,
                usize::MAX as nat,
            ),
        }
    }
}

/// The search once `connection` is settled: its target is connected unless
/// it was so already or is no node in need of a render edge.
pub open spec fn spec_settled<TV, EV>(
    search: RenderSearchView<TV, EV>,
    connection: EdgeDescriptor<EV>,
) -> RenderSearchView<TV, EV> {
    if search.connected.contains(connection.target) {
        search
    } else {
        match lookup(search.uncertain, connection.target) {
            None => search,
            Some(node) => search.spec_connect(connection.target, node),
        }
    }
}

/// The patterns of the edges that may render, in order of preference.
pub fn render_patterns<E: GraphTraits>(
    specifiers: &Option<Vec<AllowedRenderEdgeSpecifier<E>>>,
) -> (r: Vec<EdgeFinder<E>>)
    ensures
        view_all(r@) == spec_render_patterns(
            match specifiers {
                Some(s) => Some(view_all(s@)),
                None => None,
            },
        ),
{
    let mut r: Vec<EdgeFinder<E>> = Vec::new();
    match specifiers {
        Some(render_edge_types) => {
            let ghost all = spec_render_patterns(Some(view_all(render_edge_types@)));
            let mut i: usize = 0;
            assert(view_all(r@) =~= all.take(0));
            while i < render_edge_types.len()
                invariant
                    i <= render_edge_types.len(),
                    all == spec_render_patterns(Some(view_all(render_edge_types@))),
                    view_all(r@) == all.take(i as int),
                decreases render_edge_types.len() - i,
            {
                let finder = EdgeFinder::<E>::new().edge_type(
                    render_edge_types[i].edge_type.duplicate(),
                ).dir(render_edge_types[i].dir);
                proof {
                    lemma_view_all_push(r@, finder);
                    lemma_take_step(all, i as int);
                }
                r.push(finder);
                i += 1;
            }
            proof {
                lemma_take_all(all);
            }
        },
        None => {
            let finder = EdgeFinder::<E>::new().dir(EdgeDir::Emit);
            proof {
                lemma_view_all_push(r@, finder);
            }
            r.push(finder);
            assert(view_all(r@) =~= spec_render_patterns::<E::V>(None));
        },
    }
    r
}

/// The rank of `edge` among `patterns`.
pub fn edge_rank<E: GraphTraits>(patterns: &Vec<EdgeFinder<E>>, edge: &EdgeDescriptor<E>) -> (r:
    usize)
    ensures
        r as int == rank_of(view_all(patterns@), edge@),
        r <= patterns.len(),
{
    let mut i: usize = 0;
    while i < patterns.len()
        invariant
            i <= patterns.len(),
            forall|j: int| 0 <= j < i ==> !(#[trigger] view_all(patterns@)[j]).spec_matches(edge@),
        decreases patterns.len() - i,
    {
        if patterns[i].matches(edge) {
            proof {
                lemma_first_match_is(
                    view_all(patterns@),
                    |f: EdgeFinderView<E::V>| f.spec_matches(edge@),
                    i as int,
                );
            }
            return i;
        }
        i += 1;
    }
    proof {
        lemma_first_match_is(
            view_all(patterns@),
            |f: EdgeFinderView<E::V>| f.spec_matches(edge@),
            i as int,
        );
    }
    i
}

impl<T: GraphTraits, E: GraphTraits> RenderSearch<T, E> {
    /// The search before anything is connected.
    pub fn begin(uncertain: VecMap<Uid, NewNode<T, E>>) -> (r: Self)
        ensures
            r@ == RenderSearchView::begin(uncertain@),
    {
        let mut remaining: VecSet<Uid> = VecSet::new();
        let mut i: usize = 0;
        while i < uncertain.len()
            invariant
                i <= uncertain@.len(),
                remaining@ == union_seq(Seq::empty(), keys_of(uncertain@).take(i as int)),
            decreases uncertain@.len() - i,
        {
            proof {
                lemma_take_step(keys_of(uncertain@), i as int);
            }
            remaining.insert(*uncertain.key_at(i));
            i += 1;
        }
        proof {
            lemma_take_all(keys_of(uncertain@));
        }
        let r = RenderSearch {
            uncertain,
            candidates: VecSet::new(),
            connected: uid_set_new(),
            newly_connected: Vec::new(),
            remaining,
        };
        assert(r@.newly_connected =~= Seq::empty());
        r
    }

    /// Offers one edge as a candidate.
    pub fn offer(&mut self, patterns: &Vec<EdgeFinder<E>>, edge: &EdgeDescriptor<E>)
        ensures
            final(self)@ == old(self)@.spec_offer(view_all(patterns@), edge@),
    {
        if uid_set_contains(&self.connected, edge.target) {
            return ;
        }
        let rank = edge_rank(patterns, edge);
        if rank < patterns.len() {
            self.candidates.insert(Candidate { rank, edge: edge.duplicate() });
        }
    }

    /// Offers each of `edges` as a candidate.
    pub fn offer_all(&mut self, patterns: &Vec<EdgeFinder<E>>, edges: &VecSet<EdgeDescriptor<E>>)
        ensures
            final(self)@ == old(self)@.spec_offer_all(view_all(patterns@), edges@),
    {
        let mut i: usize = 0;
        proof {
            lemma_skip_none(edges@);
        }
        while i < edges.len()
            invariant
                i <= edges@.len(),
                old(self)@.spec_offer_all(view_all(patterns@), edges@) == self@.spec_offer_all(
                    view_all(patterns@),
                    edges@.skip(i as int),
                ),
            decreases edges@.len() - i,
        {
            proof {
                lemma_skip_step(edges@, i as int);
            }
            self.offer(patterns, edges.get(i));
            i += 1;
        }
    }

    /// Offers the edges of every newly connected node.
    pub fn expand(&mut self, patterns: &Vec<EdgeFinder<E>>)
        ensures
            final(self)@ == old(self)@.spec_expanded(view_all(patterns@)),
    {
        let mut nodes: Vec<NewNode<T, E>> = Vec::new();
        std::mem::swap(&mut nodes, &mut self.newly_connected);
        let ghost start = old(self)@;
        let ghost all = view_all(nodes@);
        assert(view_all(Seq::<NewNode<T, E>>::empty()) =~= Seq::<NewNodeView<T::V, E::V>>::empty());
        assert(self@.newly_connected =~= Seq::<NewNodeView<T::V, E::V>>::empty());
        let mut i: usize = 0;
        proof {
            lemma_skip_none(all);
        }
        while i < nodes.len()
            invariant
                i <= nodes.len(),
                all == view_all(nodes@),
                start.spec_expanded(view_all(patterns@)) == self@.spec_expand(
                    view_all(patterns@),
                    all.skip(i as int),
                ),
            decreases nodes.len() - i,
        {
            proof {
                lemma_skip_step(all, i as int);
            }
            self.offer_all(patterns, &nodes[i].add_edges);
            i += 1;
        }
    }

    /// Marks node `id` as connected.
    pub fn connect(&mut self, id: Uid, node: NewNode<T, E>)
        ensures
            final(self)@ == old(self)@.spec_connect(id, node@),
    {
        uid_set_insert(&mut self.connected, id);
        self.remaining.remove(&id);
        proof {
            lemma_view_all_push(self.newly_connected@, node);
        }
        self.newly_connected.push(node);
    }

    /// The position of the candidate to take next.
    pub fn best(&self) -> (r: usize)
        requires
            self@.candidates.len() > 0,
        ensures
            r as int == spec_best(self@.candidates),
            r < self@.candidates.len(),
    {
        let mut best: usize = 0;
        let mut i: usize = 1;
        assert(self@.candidates.take(1).drop_last().len() == 0);
        while i < self.candidates.len()
            invariant
                1 <= i <= self@.candidates.len(),
                best < i,
                best as int == spec_best(self@.candidates.take(i as int)),
            decreases self@.candidates.len() - i,
        {
            proof {
                lemma_take_step(self@.candidates, i as int);
            }
            if self.candidates.get(i).rank < self.candidates.get(best).rank {
                best = i;
            }
            i += 1;
        }
        proof {
            lemma_take_all(self@.candidates);
        }
        best
    }
}

impl<T: GraphTraits, E: GraphTraits> BuildBlueprint<T, E> {
    /// Makes `connection` the render edge of its target.
    pub fn assign<A: GraphTraits>(
        &mut self,
        graph: &ViewGraph<T, E, A>,
        connection: &EdgeDescriptor<E>,
    )
        ensures
            final(self)@ == old(self)@.spec_assign(graph@.nodes, connection@),
    {
        let contains_same_edge = match graph.nodes.get(&connection.host) {
            Some(graph_node) => {
                let finder = EdgeFinder::<E>::new().host(connection.host).edge_type(
                    connection.edge_type.duplicate(),
                ).dir(connection.dir).target(connection.target).render_info(Some(EdgeDir::Emit));
                graph_node.search_for_edge(&finder).is_some() && !self.takes(
                    &connection.with_render(Some(EdgeDir::Emit)),
                )
            },
            None => false,
        };
        let new_host = match self.new_nodes.get(&connection.host) {
            Some(n) => Some(n.update_edge_render_info(connection, Some(EdgeDir::Emit))),
            None => None,
        };
        match new_host {
            Some(updated_host_node) => {
                self.new_nodes.insert(connection.host, updated_host_node);
            },
            None => {
                if !contains_same_edge {
                    let existing_host_node = match self.update_nodes.get(&connection.host) {
                        Some(n) => n.duplicate(),
                        None => UpdateNode::new(connection.host),
                    };
                    self.update_nodes.insert(
                        connection.host,
                        existing_host_node.update_edge_render_info(connection, Some(EdgeDir::Emit)),
                    );
                }
            },
        }
        let inverted = connection.invert();
        let new_target = match self.new_nodes.get(&connection.target) {
            Some(n) => Some(n.update_edge_render_info(&inverted, Some(EdgeDir::Recv))),
            None => None,
        };
        match new_target {
            Some(updated_target_node) => {
                self.new_nodes.insert(connection.target, updated_target_node);
            },
            None => {
                if !contains_same_edge {
                    let existing_target_node = match self.update_nodes.get(&connection.target) {
                        Some(n) => n.duplicate(),
                        None => UpdateNode::new(connection.target),
                    };
                    self.update_nodes.insert(
                        connection.target,
                        existing_target_node.update_edge_render_info(
                            &inverted,
                            Some(EdgeDir::Recv),
                        ),
                    );
                }
            },
        }
    }

    /// Whether the removal of `edge` from its host is staged.
    pub fn takes(&self, edge: &EdgeDescriptor<E>) -> (b: bool)
        ensures
            b == self@.spec_takes(edge@),
    {
        match self.update_nodes.get(&edge.host) {
            Some(n) => match &n.remove_edges {
                Some(removed) => removed.contains(edge),
                None => false,
            },
            None => false,
        }
    }

    /// Stages `edge` without render mark on both of its sides.
    pub fn unmark(&mut self, edge: &EdgeDescriptor<E>)
        ensures
            final(self)@ == old(self)@.spec_unmark(edge@),
    {
        let host_node = match self.update_nodes.get(&edge.host) {
            Some(n) => n.duplicate(),
            None => UpdateNode::new(edge.host),
        };
        self.update_nodes.insert(edge.host, host_node.update_edge_render_info(edge, None));
        let inverted = edge.invert();
        let target_node = match self.update_nodes.get(&edge.target) {
            Some(n) => n.duplicate(),
            None => UpdateNode::new(edge.target),
        };
        self.update_nodes.insert(
            edge.target,
            target_node.update_edge_render_info(&inverted, None),
        );
    }

    /// Releases the target of `connection` from the render edges that the
    /// graph holds on it.
    pub fn release<A: GraphTraits>(
        &mut self,
        graph: &ViewGraph<T, E, A>,
        connection: &EdgeDescriptor<E>,
    )
        ensures
            final(self)@ == old(self)@.spec_release(graph@.nodes, connection@),
    {
        let keep = connection.invert().with_render(Some(EdgeDir::Recv));
        match graph.nodes.get(&connection.target) {
            None => {},
            Some(node) => {
                let finder = EdgeFinder::<E>::new().render_info(Some(EdgeDir::Recv)).match_all();
                match node.search_for_edge(&finder) {
                    None => {},
                    Some(olds) => {
                        let mut i: usize = 0;
                        proof {
                            lemma_skip_none(olds@);
                        }
                        while i < olds.len()
                            invariant
                                i <= olds@.len(),
                                old(self)@.spec_release_each(olds@, keep@)
                                    == self@.spec_release_each(olds@.skip(i as int), keep@),
                            decreases olds@.len() - i,
                        {
                            proof {
                                lemma_skip_step(olds@, i as int);
                            }
                            let old_edge = olds.get(i);
                            if !old_edge.same(&keep) && !self.takes(old_edge) {
                                self.unmark(old_edge);
                            }
                            i += 1;
                        }
                    },
                }
            },
        }
    }

    /// Settles one candidate.
    pub fn settle<A: GraphTraits>(
        &mut self,
        search: &mut RenderSearch<T, E>,
        graph: &ViewGraph<T, E, A>,
        connection: &EdgeDescriptor<E>,
    )
        ensures
            final(self)@ == old(self)@.spec_settle(old(search)@, graph@.nodes, connection@),
            final(search)@ == spec_settled(old(search)@, connection@),
    {
        if uid_set_contains(&search.connected, connection.target) {
            return ;
        }
        let target_node = match search.uncertain.get(&connection.target) {
            Some(n) => Some(n.duplicate()),
            None => None,
        };
        match target_node {
            None => {},
            Some(target_node) => {
                let decided = match target_node.get_render_edge() {
                    Some(existing_render_edge) => uid_set_contains(
                        &search.connected,
                        existing_render_edge.target,
                    ),
                    None => false,
                };
                if !decided {
                    self.assign(graph, connection);
                    self.release(graph, connection);
                }
                search.connect(connection.target, target_node);
            },
        }
    }

    /// Ends a search that has run out of candidates.
    pub fn give_up<A: GraphTraits>(&mut self, remaining: &VecSet<Uid>, graph: &ViewGraph<T, E, A>)
        ensures
            final(self)@ == old(self)@.spec_give_up(remaining@, graph@.nodes),
    {
        let mut i: usize = 0;
        proof {
            lemma_skip_none(remaining@);
        }
        while i < remaining.len()
            invariant
                i <= remaining@.len(),
                self@ == old(self)@,
                spec_first_new(self@.new_nodes, remaining@) == spec_first_new(
                    self@.new_nodes,
                    remaining@.skip(i as int),
                ),
            decreases remaining@.len() - i,
        {
            proof {
                lemma_skip_step(remaining@, i as int);
            }
            let remaining_node = *remaining.get(i);
            if self.new_nodes.contains_key(&remaining_node) {
                self.fail(
                    GraphError::blueprint_about(
                        "could not find render edges for all new nodes\nNode ID: ",
                        remaining_node,
                    ),
                );
                return ;
            }
            i += 1;
        }
        self.delete_nodes = self.delete_nodes.union(remaining);
        self.finalize_delete_nodes(graph);
    }

    /// Gives every node that the transaction creates or displaces its
    /// render edge.
    pub fn set_render_edges<A: GraphTraits>(
        &mut self,
        valid_render_edge_finders: &Vec<EdgeFinder<E>>,
        entry_point_temp_id: Option<TempId>,
        graph: &ViewGraph<T, E, A>,
    )
        ensures
            final(self)@ == old(self)@.spec_set_render_edges(
                graph@.nodes,
                view_all(valid_render_edge_finders@),
                entry_point_temp_id,
            ),
    {
        let mut combined_uncertain_render_nodes = self.new_nodes.duplicate_with(
            NewNode::<T, E>::duplicate,
        );
        let mut i: usize = 0;
        proof {
            lemma_skip_none(self.displaced_nodes@);
        }
        while i < self.displaced_nodes.len()
            invariant
                i <= self.displaced_nodes@.len(),
                self@ == old(self)@,
                spec_extend(self@.new_nodes, self@.displaced_nodes) == spec_extend(
                    combined_uncertain_render_nodes@,
                    self@.displaced_nodes.skip(i as int),
                ),
            decreases self.displaced_nodes@.len() - i,
        {
            proof {
                lemma_skip_step(self.displaced_nodes@, i as int);
            }
            combined_uncertain_render_nodes.insert(
                *self.displaced_nodes.key_at(i),
                self.displaced_nodes.value_at(i).duplicate(),
            );
            i += 1;
        }
        let mut search = RenderSearch::begin(combined_uncertain_render_nodes);
        match entry_point_temp_id {
            Some(entry_point_temp_id) => {
                match uid_map_get(&self.temp_id_map, entry_point_temp_id) {
                    None => {
                        self.fail(
                            GraphError::blueprint_about(
                                "set_render_edges: entry_point_temp_id not found in temp_id_map\nTemp Id: ",
                                entry_point_temp_id,
                            ),
                        );
                        return ;
                    },
                    Some(starting_id) => {
                        let node = match search.uncertain.get(&starting_id) {
                            Some(n) => Some(n.duplicate()),
                            None => None,
                        };
                        match node {
                            None => {
                                self.fail(
                                    GraphError::blueprint_about(
                                        "set_render_edges: entry_point is not a node of this blueprint\nNode Id: ",
                                        starting_id,
                                    ),
                                );
                                return ;
                            },
                            Some(node) => {
                                if node.get_render_edge().is_some() {
                                    self.fail(
                                        GraphError::blueprint_about(
                                            "set_render_edges: entry_point cannot have a render edge\nNode Id: ",
                                            starting_id,
                                        ),
                                    );
                                    return ;
                                }
                                search.connect(starting_id, node);
                            },
                        }
                    },
                }
            },
            None => {
                search.offer_all(valid_render_edge_finders, &self.entry_edges);
                search.offer_all(valid_render_edge_finders, &self.displaced_entry_edges);
            },
        }
        self.render_rounds(search, valid_render_edge_finders, graph);
    }

    fn render_rounds<A: GraphTraits>(
        &mut self,
        begin: RenderSearch<T, E>,
        patterns: &Vec<EdgeFinder<E>>,
        graph: &ViewGraph<T, E, A>,
    )
        ensures
            final(self)@ == old(self)@.spec_render_rounds(
                begin@,
                graph@.nodes,
                view_all(patterns@),
                usize::MAX as nat,
            ),
    {
        let mut search = begin;
        let mut fuel: usize = usize::MAX;
        while !search.remaining.is_empty()
            invariant
                old(self)@.spec_render_rounds(
                    begin@,
                    graph@.nodes,
                    view_all(patterns@),
                    usize::MAX as nat,
                ) == self@.spec_render_rounds(
                    search@,
                    graph@.nodes,
                    view_all(patterns@),
                    fuel as nat,
                ),
            decreases fuel,
        {
            if fuel == 0 {
                self.fail(
                    GraphError::Blueprint(
                        String::from_str("set_render_edges: the search did not come to an end"),
                    ),
                );
                return ;
            }
            let ghost staged = self@;
            let ghost before = search@;
            search.expand(patterns);
            if search.candidates.is_empty() {
                self.give_up(&search.remaining, graph);
                assert(staged.spec_render_rounds(
                    before,
                    graph@.nodes,
                    view_all(patterns@),
                    fuel as nat,
                ) == staged.spec_give_up(
                    before.spec_expanded(view_all(patterns@)).remaining,
                    graph@.nodes,
                ));
                return ;
            }
            let best = search.best();
            let connection = search.candidates.get(best).duplicate();
            search.candidates.remove(&connection);
            let ghost left = search@;
            self.settle(&mut search, graph, &connection.edge);
            assert(staged.spec_render_rounds(
                before,
                graph@.nodes,
                view_all(patterns@),
                fuel as nat,
            ) == staged.spec_settle(left, graph@.nodes, connection@.1).spec_render_rounds(
                spec_settled(left, connection@.1),
                graph@.nodes,
                view_all(patterns@),
                (fuel - 1) as nat,
            ));
            fuel -= 1;
        }
    }
}

} // verus!
