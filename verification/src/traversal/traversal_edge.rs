//! The edges that a path query followed.

use vstd::prelude::*;

use crate::common::{EdgeDescriptor, GraphTraits, GraphValue, Uid};
use crate::traversal::traversal_step::{TraversalStep, TraversalStepView};

verus! {

/// The edge through which a node was reached, with the depths of the node
/// it left from.
#[derive(Debug, Clone)]
pub struct UpstreamEdge<E> {
    pub edge: EdgeDescriptor<E>,
    pub step: TraversalStep<E>,
    pub traversal_index: usize,
    pub step_index: usize,
    pub creates_cycle: bool,
    pub is_reentrant: bool,
}

/// What an [`UpstreamEdge`] holds.
pub struct UpstreamEdgeView<EV> {
    pub edge: EdgeDescriptor<EV>,
    pub step: TraversalStepView<EV>,
    pub traversal_index: usize,
    pub step_index: usize,
    pub creates_cycle: bool,
    pub is_reentrant: bool,
}

impl<E: View> View for UpstreamEdge<E> {
    type V = UpstreamEdgeView<E::V>;

    open spec fn view(&self) -> UpstreamEdgeView<E::V> {
        UpstreamEdgeView {
            edge: self.edge@,
            step: self.step@,
            traversal_index: self.traversal_index,
            step_index: self.step_index,
            creates_cycle: self.creates_cycle,
            is_reentrant: self.is_reentrant,
        }
    }
}

impl<EV> UpstreamEdgeView<EV> {
    /// The edge as it is first recorded.
    pub open spec fn fresh(
        edge: EdgeDescriptor<EV>,
        step: TraversalStepView<EV>,
        step_index: usize,
        traversal_index: usize,
    ) -> Self {
        UpstreamEdgeView {
            edge,
            step,
            traversal_index,
            step_index,
            creates_cycle: false,
            is_reentrant: false,
        }
    }
}

impl<E: GraphTraits> UpstreamEdge<E> {
    pub fn new(
        edge: EdgeDescriptor<E>,
        step: TraversalStep<E>,
        step_index: usize,
        traversal_index: usize,
    ) -> (r: Self)
        ensures
            r@ == UpstreamEdgeView::fresh(edge@, step@, step_index, traversal_index),
    {
        UpstreamEdge {
            edge,
            creates_cycle: false,
            is_reentrant: false,
            step,
            step_index,
            traversal_index,
        }
    }

    /// The same record once more.
    pub fn duplicate(&self) -> (r: Self)
        ensures
            r@ == self@,
    {
        UpstreamEdge {
            edge: self.edge.duplicate(),
            creates_cycle: self.creates_cycle,
            is_reentrant: self.is_reentrant,
            step: self.step.duplicate(),
            step_index: self.step_index,
            traversal_index: self.traversal_index,
        }
    }

    pub fn set_step_index(&self, step_index: usize) -> (r: Self)
        ensures
            r@ == (UpstreamEdgeView { step_index, ..self@ }),
    {
        let mut r = self.duplicate();
        r.step_index = step_index;
        r
    }

    pub fn set_traversal_index(&self, traversal_index: usize) -> (r: Self)
        ensures
            r@ == (UpstreamEdgeView { traversal_index, ..self@ }),
    {
        let mut r = self.duplicate();
        r.traversal_index = traversal_index;
        r
    }

    pub fn set_creates_cycle(&self, creates_cycle: bool) -> (r: Self)
        ensures
            r@ == (UpstreamEdgeView { creates_cycle, ..self@ }),
    {
        let mut r = self.duplicate();
        r.creates_cycle = creates_cycle;
        r
    }

    pub fn set_is_reentrant(&self, is_reentrant: bool) -> (r: Self)
        ensures
            r@ == (UpstreamEdgeView { is_reentrant, ..self@ }),
    {
        let mut r = self.duplicate();
        r.is_reentrant = is_reentrant;
        r
    }
}

/// An edge that led on to the end of the query, with the node it led to.
#[derive(Debug, Clone)]
pub struct TraversalEdge<E> {
    edge: EdgeDescriptor<E>,
    creates_cycle: bool,
    is_reentrant: bool,
    step: TraversalStep<E>,
    step_index: usize,
    traversal_index: usize,
    target: Uid,
}

/// What a [`TraversalEdge`] holds.
pub struct TraversalEdgeView<EV> {
    pub edge: EdgeDescriptor<EV>,
    pub creates_cycle: bool,
    pub is_reentrant: bool,
    pub step: TraversalStepView<EV>,
    pub step_index: usize,
    pub traversal_index: usize,
    pub target: Uid,
}

impl<E: View> View for TraversalEdge<E> {
    type V = TraversalEdgeView<E::V>;

    closed spec fn view(&self) -> TraversalEdgeView<E::V> {
        TraversalEdgeView {
            edge: self.edge@,
            creates_cycle: self.creates_cycle,
            is_reentrant: self.is_reentrant,
            step: self.step@,
            step_index: self.step_index,
            traversal_index: self.traversal_index,
            target: self.target,
        }
    }
}

impl<EV> TraversalEdgeView<EV> {
    /// The edge as it is first recorded.
    pub open spec fn fresh(
        edge: EdgeDescriptor<EV>,
        step: TraversalStepView<EV>,
        target: Uid,
        step_index: usize,
        traversal_index: usize,
    ) -> Self {
        TraversalEdgeView {
            edge,
            creates_cycle: false,
            is_reentrant: false,
            step,
            step_index,
            traversal_index,
            target,
        }
    }
}

impl<E: GraphTraits> TraversalEdge<E> {
    pub fn new(
        edge: EdgeDescriptor<E>,
        step: TraversalStep<E>,
        target: Uid,
        step_index: usize,
        traversal_index: usize,
    ) -> (r: Self)
        ensures
            r@ == TraversalEdgeView::fresh(edge@, step@, target, step_index, traversal_index),
    {
        TraversalEdge {
            edge,
            creates_cycle: false,
            is_reentrant: false,
            step,
            step_index,
            traversal_index,
            target,
        }
    }

    /// The same record once more.
    pub fn duplicate(&self) -> (r: Self)
        ensures
            r@ == self@,
    {
        TraversalEdge {
            edge: self.edge.duplicate(),
            creates_cycle: self.creates_cycle,
            is_reentrant: self.is_reentrant,
            step: self.step.duplicate(),
            step_index: self.step_index,
            traversal_index: self.traversal_index,
            target: self.target,
        }
    }

    /// The edge that was followed.
    pub fn edge(&self) -> (r: &EdgeDescriptor<E>)
        ensures
            r@ == self@.edge,
    {
        &self.edge
    }

    /// The node that the edge led to.
    pub fn target(&self) -> (r: Uid)
        ensures
            r == self@.target,
    {
        self.target
    }

    pub fn set_step_index(&self, step_index: usize) -> (r: Self)
        ensures
            r@ == (TraversalEdgeView { step_index, ..self@ }),
    {
        let mut r = self.duplicate();
        r.step_index = step_index;
        r
    }

    pub fn set_traversal_index(&self, traversal_index: usize) -> (r: Self)
        ensures
            r@ == (TraversalEdgeView { traversal_index, ..self@ }),
    {
        let mut r = self.duplicate();
        r.traversal_index = traversal_index;
        r
    }

    pub fn set_creates_cycle(&self, creates_cycle: bool) -> (r: Self)
        ensures
            r@ == (TraversalEdgeView { creates_cycle, ..self@ }),
    {
        let mut r = self.duplicate();
        r.creates_cycle = creates_cycle;
        r
    }

    pub fn set_is_reentrant(&self, is_reentrant: bool) -> (r: Self)
        ensures
            r@ == (TraversalEdgeView { is_reentrant, ..self@ }),
    {
        let mut r = self.duplicate();
        r.is_reentrant = is_reentrant;
        r
    }
}

} // verus!
