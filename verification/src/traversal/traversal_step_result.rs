//! What one step found from one start node.

use vstd::prelude::*;

use crate::collections::seq_model::view_all;
use crate::common::GraphTraits;
use crate::traversal::traversal_node::{duplicate_nodes, TraversalNode, TraversalNodeView};

verus! {

/// The node a step started from, and the nodes at which it ended.
#[derive(Debug, Clone)]
pub struct TraversalStepResult<T, E, A> {
    pub entry: TraversalNode<T, E, A>,
    pub endpoints: Vec<TraversalNode<T, E, A>>,
}

/// What a [`TraversalStepResult`] holds.
pub struct TraversalStepResultView<TV, EV, AV> {
    pub entry: TraversalNodeView<TV, EV, AV>,
    pub endpoints: Seq<TraversalNodeView<TV, EV, AV>>,
}

impl<T: View, E: View, A: View> View for TraversalStepResult<T, E, A> {
    type V = TraversalStepResultView<T::V, E::V, A::V>;

    open spec fn view(&self) -> TraversalStepResultView<T::V, E::V, A::V> {
        TraversalStepResultView { entry: self.entry@, endpoints: view_all(self.endpoints@) }
    }
}

impl<T: GraphTraits, E: GraphTraits, A: GraphTraits> TraversalStepResult<T, E, A> {
    /// The same result once more.
    pub fn duplicate(&self) -> (r: Self)
        ensures
            r@ == self@,
    {
        TraversalStepResult {
            entry: self.entry.duplicate(),
            endpoints: duplicate_nodes(&self.endpoints),
        }
    }
}

} // verus!
