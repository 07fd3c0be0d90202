//! A node as a path query reached it.

use vstd::prelude::*;

use crate::blueprint::update_node::view_opt;
use crate::collections::seq_model::{lemma_take_all, lemma_take_step, lemma_view_all_push, view_all};
use crate::common::GraphTraits;
use crate::graph::reactive_node::read_reactive_node::{NodeView, ReadReactiveNode};
use crate::traversal::traversal_edge::{
    TraversalEdge, TraversalEdgeView, UpstreamEdge, UpstreamEdgeView,
};

verus! {

/// A node of the graph with its depth within the step that reached it and
/// its depth from the start of the query.
#[derive(Debug, Clone)]
pub struct TraversalNode<T, E, A> {
    pub node: ReadReactiveNode<T, E, A>,
    pub step_index: usize,
    pub traversal_index: usize,
    pub downstream_edges: Vec<TraversalEdge<E>>,
    pub upstream_edge: Option<UpstreamEdge<E>>,
}

/// What a [`TraversalNode`] holds.
pub struct TraversalNodeView<TV, EV, AV> {
    pub node: NodeView<TV, EV, AV>,
    pub step_index: usize,
    pub traversal_index: usize,
    pub downstream_edges: Seq<TraversalEdgeView<EV>>,
    pub upstream_edge: Option<UpstreamEdgeView<EV>>,
}

impl<T: View, E: View, A: View> View for TraversalNode<T, E, A> {
    type V = TraversalNodeView<T::V, E::V, A::V>;

    open spec fn view(&self) -> TraversalNodeView<T::V, E::V, A::V> {
        TraversalNodeView {
            node: self.node@,
            step_index: self.step_index,
            traversal_index: self.traversal_index,
            downstream_edges: view_all(self.downstream_edges@),
            upstream_edge: view_opt(self.upstream_edge),
        }
    }
}

impl<TV, EV, AV> TraversalNodeView<TV, EV, AV> {
    /// The node as it is first reached.
    pub open spec fn fresh(
        node: NodeView<TV, EV, AV>,
        step_index: usize,
        traversal_index: usize,
    ) -> Self {
        TraversalNodeView {
            node,
            step_index,
            traversal_index,
            downstream_edges: Seq::empty(),
            upstream_edge: None,
        }
    }
}

/// The same nodes once more.
pub fn duplicate_nodes<T: GraphTraits, E: GraphTraits, A: GraphTraits>(
    nodes: &Vec<TraversalNode<T, E, A>>,
) -> (r: Vec<TraversalNode<T, E, A>>)
    ensures
        view_all(r@) == view_all(nodes@),
{
    let mut r: Vec<TraversalNode<T, E, A>> = Vec::new();
    let mut i: usize = 0;
    assert(view_all(r@) =~= view_all(nodes@).take(0));
    while i < nodes.len()
        invariant
            i <= nodes.len(),
            view_all(r@) == view_all(nodes@).take(i as int),
        decreases nodes.len() - i,
    {
        let copy = nodes[i].duplicate();
        proof {
            lemma_view_all_push(r@, copy);
            lemma_take_step(view_all(nodes@), i as int);
        }
        r.push(copy);
        i += 1;
    }
    proof {
        lemma_take_all(view_all(nodes@));
    }
    r
}

impl<T: GraphTraits, E: GraphTraits, A: GraphTraits> TraversalNode<T, E, A> {
    pub fn new(node: ReadReactiveNode<T, E, A>, step_index: usize, traversal_index: usize) -> (r:
        Self)
        ensures
            r@ == TraversalNodeView::fresh(node@, step_index, traversal_index),
    {
        let r = TraversalNode {
            node,
            step_index,
            traversal_index,
            downstream_edges: Vec::new(),
            upstream_edge: None,
        };
        assert(r@.downstream_edges =~= Seq::empty());
        r
    }

    /// The same record once more.
    pub fn duplicate(&self) -> (r: Self)
        ensures
            r@ == self@,
    {
        let mut downstream_edges: Vec<TraversalEdge<E>> = Vec::new();
        let mut i: usize = 0;
        assert(view_all(downstream_edges@) =~= self@.downstream_edges.take(0));
        while i < self.downstream_edges.len()
            invariant
                i <= self.downstream_edges.len(),
                view_all(downstream_edges@) == self@.downstream_edges.take(i as int),
            decreases self.downstream_edges.len() - i,
        {
            let copy = self.downstream_edges[i].duplicate();
            proof {
                lemma_view_all_push(downstream_edges@, copy);
                lemma_take_step(self@.downstream_edges, i as int);
            }
            downstream_edges.push(copy);
            i += 1;
        }
        proof {
            lemma_take_all(self@.downstream_edges);
        }
        TraversalNode {
            node: self.node.duplicate(),
            step_index: self.step_index,
            traversal_index: self.traversal_index,
            downstream_edges,
            upstream_edge: match &self.upstream_edge {
                Some(e) => Some(e.duplicate()),
                None => None,
            },
        }
    }

    /// The node with one more edge that led on from it.
    pub fn add_downstream_edge(&self, edge: TraversalEdge<E>) -> (r: Self)
        ensures
            r@ == (TraversalNodeView {
                downstream_edges: self@.downstream_edges.push(edge@),
                ..self@
            }),
    {
        let mut r = self.duplicate();
        proof {
            lemma_view_all_push(r.downstream_edges@, edge);
        }
        r.downstream_edges.push(edge);
        r
    }

    /// The node with the edge through which it was reached.
    pub fn set_upstream_edge(&self, edge: UpstreamEdge<E>) -> (r: Self)
        ensures
            r@ == (TraversalNodeView { upstream_edge: Some(edge@), ..self@ }),
    {
        let mut r = self.duplicate();
        r.upstream_edge = Some(edge);
        r
    }

    /// The node as the start of a step.
    pub fn reset_step_index(&self) -> (r: Self)
        ensures
            r@ == (TraversalNodeView { step_index: 0, ..self@ }),
    {
        let mut r = self.duplicate();
        r.step_index = 0;
        r
    }
}

} // verus!
