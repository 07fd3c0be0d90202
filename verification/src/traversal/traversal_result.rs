//! What a path query found.

use vstd::prelude::*;

use crate::collections::seq_model::view_all;
use crate::common::GraphTraits;
use crate::traversal::traversal_step_result::{TraversalStepResult, TraversalStepResultView};

verus! {

/// For each step of the query, what it found from each of its start nodes.
#[derive(Debug, Clone)]
pub struct TraversalResult<T, E, A> {
    pub step_results: Vec<Vec<TraversalStepResult<T, E, A>>>,
}

/// What a [`TraversalResult`] holds.
pub struct TraversalResultView<TV, EV, AV> {
    pub step_results: Seq<Seq<TraversalStepResultView<TV, EV, AV>>>,
}

impl<T: View, E: View, A: View> View for TraversalResult<T, E, A> {
    type V = TraversalResultView<T::V, E::V, A::V>;

    open spec fn view(&self) -> TraversalResultView<T::V, E::V, A::V> {
        TraversalResultView {
            step_results: Seq::new(
                self.step_results@.len(),
                |i: int| view_all(self.step_results@[i]@),
            ),
        }
    }
}

impl<T: GraphTraits, E: GraphTraits, A: GraphTraits> TraversalResult<T, E, A> {
    /// The result of a query of `num_steps` steps that found nothing yet.
    pub fn new(num_steps: usize) -> (r: Self)
        ensures
            r@.step_results == Seq::new(
                num_steps as nat,
                |i: int| Seq::<TraversalStepResultView<T::V, E::V, A::V>>::empty(),
            ),
    {
        let mut step_results: Vec<Vec<TraversalStepResult<T, E, A>>> = Vec::new();
        let mut i: usize = 0;
        while i < num_steps
            invariant
                i <= num_steps,
                step_results@.len() == i,
                forall|j: int| 0 <= j < i ==> (#[trigger] step_results@[j])@.len() == 0,
            decreases num_steps - i,
        {
            step_results.push(Vec::new());
            i += 1;
        }
        let r = TraversalResult { step_results };
        assert(r@.step_results =~= Seq::new(
            num_steps as nat,
            |i: int| Seq::<TraversalStepResultView<T::V, E::V, A::V>>::empty(),
        )) by {
            assert forall|j: int| 0 <= j < num_steps implies #[trigger] r@.step_results[j]
                =~= Seq::<TraversalStepResultView<T::V, E::V, A::V>>::empty() by {
                assert(r.step_results@[j]@.len() == 0);
            }
        }
        r
    }
}

} // verus!
