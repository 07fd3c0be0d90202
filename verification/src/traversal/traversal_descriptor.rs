//! A path query and the way to run it.

use vstd::prelude::*;

use crate::collections::seq_model::{
    lemma_take_all, lemma_take_step, lemma_view_all_push, lookup, view_all,
};
use crate::common::{EdgeFinder, GraphTraits, Uid};
use crate::graph::reactive_node::read_reactive_node::NodeView;
use crate::graph::view_graph::ViewGraph;
use crate::traversal::traversal_executor::{spec_traverse_step, traverse_step, StepRecord};
use crate::traversal::traversal_node::{TraversalNode, TraversalNodeView};
use crate::traversal::traversal_result::{TraversalResult, TraversalResultView};
use crate::traversal::traversal_step::{TraversalCount, TraversalStep, TraversalStepView};
use crate::traversal::traversal_step_result::{TraversalStepResult, TraversalStepResultView};

verus! {

/// Where a query starts and the steps it takes.
#[derive(Debug, Clone)]
pub struct TraversalDescriptor<E> {
    pub start_node: Uid,
    pub steps: Vec<TraversalStep<E>>,
}

/// What a [`TraversalDescriptor`] holds.
pub struct TraversalDescriptorView<EV> {
    pub start_node: Uid,
    pub steps: Seq<TraversalStepView<EV>>,
}

impl<E: View> View for TraversalDescriptor<E> {
    type V = TraversalDescriptorView<E::V>;

    open spec fn view(&self) -> TraversalDescriptorView<E::V> {
        TraversalDescriptorView { start_node: self.start_node, steps: view_all(self.steps@) }
    }
}

/// What step `step` found, start node by start node.
pub open spec fn spec_results_of<TV, EV, AV>(
    records: Seq<(usize, TraversalStepResultView<TV, EV, AV>)>,
    step: int,
) -> Seq<TraversalStepResultView<TV, EV, AV>>
    decreases records.len(),
{
    if records.len() == 0 {
        Seq::empty()
    } else if records.last().0 == step {
        spec_results_of(records.drop_last(), step).push(records.last().1)
    } else {
        spec_results_of(records.drop_last(), step)
    }
}

impl<EV> TraversalDescriptorView<EV> {
    /// What the query finds in `graph`: `None` where the start node is not
    /// there or the steps cannot all be taken.
    pub open spec fn spec_execute<TV, AV>(
        self,
        graph: Seq<(Uid, NodeView<TV, EV, AV>)>,
    ) -> Option<TraversalResultView<TV, EV, AV>> {
        match lookup(graph, self.start_node) {
            None => None,
            Some(root) => match spec_traverse_step(
                graph,
                self.steps,
                seq![TraversalNodeView::fresh(root, 0, 0)],
                0,
                Seq::empty(),
                graph.len(),
            ) {
                None => None,
                Some(records) => Some(
                    TraversalResultView {
                        step_results: Seq::new(
                            self.steps.len(),
                            |k: int| spec_results_of(records, k),
                        ),
                    },
                ),
            },
        }
    }
}

fn results_of<T: GraphTraits, E: GraphTraits, A: GraphTraits>(
    records: &Vec<StepRecord<T, E, A>>,
    step: usize,
) -> (r: Vec<TraversalStepResult<T, E, A>>)
    ensures
        view_all(r@) == spec_results_of(view_all(records@), step as int),
{
    let mut r: Vec<TraversalStepResult<T, E, A>> = Vec::new();
    let ghost all = view_all(records@);
    let mut i: usize = 0;
    assert(view_all(r@) =~= Seq::<TraversalStepResultView<T::V, E::V, A::V>>::empty());
    while i < records.len()
        invariant
            i <= records.len(),
            all == view_all(records@),
            view_all(r@) == spec_results_of(all.take(i as int), step as int),
        decreases records.len() - i,
    {
        proof {
            lemma_take_step(all, i as int);
        }
        if records[i].step == step {
            let copy = records[i].result.duplicate();
            proof {
                lemma_view_all_push(r@, copy);
            }
            r.push(copy);
        }
        i += 1;
    }
    proof {
        lemma_take_all(all);
    }
    r
}

impl<E: GraphTraits> TraversalDescriptor<E> {
    /// A query from `start_node` without steps.
    pub fn new(start_node: Uid) -> (r: Self)
        ensures
            r@ == (TraversalDescriptorView::<E::V> { start_node, steps: Seq::empty() }),
    {
        let r = TraversalDescriptor { start_node, steps: Vec::new() };
        assert(r@.steps =~= Seq::empty());
        r
    }

    /// The query with one more step.
    pub fn add_step(&self, edge_finder: EdgeFinder<E>, count: TraversalCount) -> (r: Self)
        ensures
            r@ == (TraversalDescriptorView {
                start_node: self@.start_node,
                steps: self@.steps.push(TraversalStepView { edge_finder: edge_finder@, count }),
            }),
    {
        let mut new_steps: Vec<TraversalStep<E>> = Vec::new();
        let mut i: usize = 0;
        assert(view_all(new_steps@) =~= self@.steps.take(0));
        while i < self.steps.len()
            invariant
                i <= self.steps.len(),
                view_all(new_steps@) == self@.steps.take(i as int),
            decreases self.steps.len() - i,
        {
            let copy = self.steps[i].duplicate();
            proof {
                lemma_view_all_push(new_steps@, copy);
                lemma_take_step(self@.steps, i as int);
            }
            new_steps.push(copy);
            i += 1;
        }
        let step = TraversalStep::new(edge_finder, count);
        proof {
            lemma_take_all(self@.steps);
            lemma_view_all_push(new_steps@, step);
        }
        new_steps.push(step);
        TraversalDescriptor { start_node: self.start_node, steps: new_steps }
    }

    /// Runs the query against `graph`.
    pub fn execute<T: GraphTraits, A: GraphTraits>(&self, graph: &ViewGraph<T, E, A>) -> (r: Option<
        TraversalResult<T, E, A>,
    >)
        ensures
            match r {
                Some(found) => self@.spec_execute(graph@.nodes) == Some(found@),
                None => self@.spec_execute(graph@.nodes) is None,
            },
    {
        let root = match graph.nodes.get(&self.start_node) {
            Some(node) => node.duplicate(),
            None => {
                return None;
            },
        };
        let root_trav_node = TraversalNode::new(root, 0, 0);
        let mut starts: Vec<TraversalNode<T, E, A>> = Vec::new();
        proof {
            lemma_view_all_push(starts@, root_trav_node);
            assert(view_all(starts@.push(root_trav_node)) =~= seq![root_trav_node@]);
        }
        starts.push(root_trav_node);
        let initial: Vec<StepRecord<T, E, A>> = Vec::new();
        assert(view_all(initial@) =~= Seq::empty());
        let records = match traverse_step(graph, &self.steps, starts, 0, initial, graph.nodes.len()) {
            Some(records) => records,
            None => {
                return None;
            },
        };
        let mut step_results: Vec<Vec<TraversalStepResult<T, E, A>>> = Vec::new();
        let mut k: usize = 0;
        while k < self.steps.len()
            invariant
                k <= self.steps.len(),
                step_results@.len() == k,
                forall|j: int|
                    0 <= j < k ==> view_all((#[trigger] step_results@[j])@) == spec_results_of(
                        view_all(records@),
                        j,
                    ),
            decreases self.steps.len() - k,
        {
            step_results.push(results_of(&records, k));
            k += 1;
        }
        let result = TraversalResult { step_results };
        assert(result@.step_results =~= Seq::new(
            self@.steps.len(),
            |k: int| spec_results_of(view_all(records@), k),
        ));
        Some(result)
    }
}

} // verus!
