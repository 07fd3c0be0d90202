//! The search behind a path query: depth first, one step after the other,
//! keeping of each step only what the rest of the query succeeds from.

use vstd::prelude::*;

use crate::blueprint::update_node::{items_of, view_opt};
use crate::collections::seq_model::{
    has_key, keep, lemma_skip_none, lemma_skip_step, lemma_take_all, lemma_take_step,
    lemma_view_all_push, lookup, view_all,
};
use crate::collections::uid_index::{
    uid_set_clone, uid_set_contains, uid_set_insert, uid_set_members, uid_set_new, UidSet,
};
use crate::common::{EdgeDescriptor, EdgeFinder, EdgeFinderView, GraphTraits, GraphValue, Uid};
use crate::graph::reactive_node::read_reactive_node::{NodeView, ReadReactiveNode};
use crate::graph::view_graph::ViewGraph;
use crate::traversal::traversal_edge::{
    TraversalEdge, TraversalEdgeView, UpstreamEdge, UpstreamEdgeView,
};
use crate::traversal::traversal_node::{duplicate_nodes, TraversalNode, TraversalNodeView};
use crate::traversal::traversal_step::{TraversalStep, TraversalStepView};
use crate::traversal::traversal_step_result::{TraversalStepResult, TraversalStepResultView};

verus! {

/// What one step found from one start node, with the number of the step.
#[derive(Debug, Clone)]
pub struct StepRecord<T, E, A> {
    pub step: usize,
    pub result: TraversalStepResult<T, E, A>,
}

impl<T: View, E: View, A: View> View for StepRecord<T, E, A> {
    type V = (usize, TraversalStepResultView<T::V, E::V, A::V>);

    open spec fn view(&self) -> (usize, TraversalStepResultView<T::V, E::V, A::V>) {
        (self.step, self.result@)
    }
}

/// The state of the search at one node: the node with the edges that led on
/// from it, the nodes at which the step has ended so far, what later steps
/// found, and whether anything succeeded from here.
pub struct Progress<T, E, A> {
    pub node: TraversalNode<T, E, A>,
    pub exits: Vec<TraversalNode<T, E, A>>,
    pub rolling: Vec<StepRecord<T, E, A>>,
    pub success: bool,
}

/// What a [`Progress`] holds.
pub struct ProgressView<TV, EV, AV> {
    pub node: TraversalNodeView<TV, EV, AV>,
    pub exits: Seq<TraversalNodeView<TV, EV, AV>>,
    pub rolling: Seq<(usize, TraversalStepResultView<TV, EV, AV>)>,
    pub success: bool,
}

impl<T: View, E: View, A: View> View for Progress<T, E, A> {
    type V = ProgressView<T::V, E::V, A::V>;

    open spec fn view(&self) -> ProgressView<T::V, E::V, A::V> {
        ProgressView {
            node: self.node@,
            exits: view_all(self.exits@),
            rolling: view_all(self.rolling@),
            success: self.success,
        }
    }
}

/// What the search found from one node on.
pub struct TraversalStepItemRecursiveResult<T, E, A> {
    pub result: TraversalNode<T, E, A>,
    pub exit_nodes: Vec<TraversalNode<T, E, A>>,
    pub rolling_result: Vec<StepRecord<T, E, A>>,
}

/// What a [`TraversalStepItemRecursiveResult`] holds.
pub struct ItemView<TV, EV, AV> {
    pub result: TraversalNodeView<TV, EV, AV>,
    pub exit_nodes: Seq<TraversalNodeView<TV, EV, AV>>,
    pub rolling_result: Seq<(usize, TraversalStepResultView<TV, EV, AV>)>,
}

impl<T: View, E: View, A: View> View for TraversalStepItemRecursiveResult<T, E, A> {
    type V = ItemView<T::V, E::V, A::V>;

    open spec fn view(&self) -> ItemView<T::V, E::V, A::V> {
        ItemView {
            result: self.result@,
            exit_nodes: view_all(self.exit_nodes@),
            rolling_result: view_all(self.rolling_result@),
        }
    }
}

impl<T: GraphTraits, E: GraphTraits, A: GraphTraits> TraversalStepItemRecursiveResult<T, E, A> {
    /// The start node with the nodes at which the step ended.
    pub fn into_traversal_step_result(&self) -> (r: TraversalStepResult<T, E, A>)
        ensures
            r@ == (TraversalStepResultView {
                entry: self@.result,
                endpoints: self@.exit_nodes,
            }),
    {
        TraversalStepResult {
            entry: self.result.duplicate(),
            endpoints: duplicate_nodes(&self.exit_nodes),
        }
    }
}

/// The edges that a step may follow from `node`: those that its pattern
/// finds, as far as they lead to a node of the graph that is not on the
/// path yet.
pub open spec fn spec_usable_edges<TV, EV, AV>(
    graph: Seq<(Uid, NodeView<TV, EV, AV>)>,
    node: NodeView<TV, EV, AV>,
    finder: EdgeFinderView<EV>,
    seen: Set<Uid>,
) -> Seq<EdgeDescriptor<EV>> {
    keep(
        items_of(node.spec_search_for_edge(finder)),
        |e: EdgeDescriptor<EV>| has_key(graph, e.target) && !seen.contains(e.target),
    )
}

/// Whether the search may go deeper from a node at these depths.
pub open spec fn may_descend(fuel: nat, step_index: usize, traversal_index: usize) -> bool {
    fuel > 0 && step_index < usize::MAX && traversal_index < usize::MAX
}

/// What the search finds from `node` on, which step `current_step` has
/// reached after `step_index` edges: `None` where neither the step can end
/// here with the rest of the query succeeding, nor any edge leads on to
/// such an end.
pub open spec fn spec_traverse_step_item<TV, EV, AV>(
    graph: Seq<(Uid, NodeView<TV, EV, AV>)>,
    steps: Seq<TraversalStepView<EV>>,
    node: TraversalNodeView<TV, EV, AV>,
    current_step: nat,
    visited_step: Set<Uid>,
    step_index: usize,
    traversal_index: usize,
    exit_nodes: Seq<TraversalNodeView<TV, EV, AV>>,
    rolling_result: Seq<(usize, TraversalStepResultView<TV, EV, AV>)>,
    fuel: nat,
    limit: nat,
) -> Option<ItemView<TV, EV, AV>>
    decreases steps.len() - current_step, fuel, 0nat,
{
    if current_step >= steps.len() {
        None
    } else {
        let step = steps[current_step as int];
        let satisfied = step.count.spec_is_satisfied(step_index as nat);
        let upper_bound_met = step.count.spec_upper_bound_met(step_index as nat);
        let seen = visited_step.insert(node.node.id);
        let usable = if may_descend(fuel, step_index, traversal_index) {
            spec_usable_edges(graph, node.node, step.edge_finder, seen)
        } else {
            Seq::empty()
        };
        if upper_bound_met && !satisfied {
            None
        } else {
            let begin = ProgressView { node, exits: exit_nodes, rolling: rolling_result, success: false };
            let ended = if satisfied && (step.count.spec_is_inclusive() || upper_bound_met || (
            step.count.spec_is_exclusive() && usable.len() == 0)) {
                match spec_traverse_step(
                    graph,
                    steps,
                    seq![node],
                    current_step + 1,
                    rolling_result,
                    limit,
                ) {
                    Some(done) => ProgressView {
                        node,
                        exits: exit_nodes.push(node),
                        rolling: done,
                        success: true,
                    },
                    None => begin,
                }
            } else {
                begin
            };
            let after = if !upper_bound_met && fuel > 0 {
                spec_follow(
                    graph,
                    steps,
                    ended,
                    usable,
                    current_step,
                    seen,
                    step_index,
                    traversal_index,
                    (fuel - 1) as nat,
                    limit,
                )
            } else {
                ended
            };
            if after.success {
                Some(
                    ItemView {
                        result: after.node,
                        exit_nodes: after.exits,
                        rolling_result: after.rolling,
                    },
                )
            } else {
                None
            }
        }
    }
}

/// The search at a node after each of `edges` has been followed in turn.
/// An edge counts where the search succeeds from the node it leads to.
pub open spec fn spec_follow<TV, EV, AV>(
    graph: Seq<(Uid, NodeView<TV, EV, AV>)>,
    steps: Seq<TraversalStepView<EV>>,
    progress: ProgressView<TV, EV, AV>,
    edges: Seq<EdgeDescriptor<EV>>,
    current_step: nat,
    seen: Set<Uid>,
    step_index: usize,
    traversal_index: usize,
    fuel: nat,
    limit: nat,
) -> ProgressView<TV, EV, AV>
    decreases steps.len() - current_step, fuel, edges.len() + 1,
{
    if edges.len() == 0 || current_step >= steps.len() {
        progress
    } else {
        let edge = edges[0];
        let step = steps[current_step as int];
        let next = match lookup(graph, edge.target) {
            None => progress,
            Some(target) => {
                let child = TraversalNodeView {
                    upstream_edge: Some(
                        UpstreamEdgeView::fresh(edge, step, step_index, traversal_index),
                    ),
                    ..TraversalNodeView::fresh(
                        target,
                        (step_index + 1) as usize,
                        (traversal_index + 1) as usize,
                    )
                };
                match spec_traverse_step_item(
                    graph,
                    steps,
                    child,
                    current_step,
                    seen,
                    (step_index + 1) as usize,
                    (traversal_index + 1) as usize,
                    progress.exits,
                    progress.rolling,
                    fuel,
                    limit,
                ) {
                    None => progress,
                    Some(branch) => ProgressView {
                        node: TraversalNodeView {
                            downstream_edges: progress.node.downstream_edges.push(
                                TraversalEdgeView::fresh(
                                    edge,
                                    step,
                                    branch.result.node.id,
                                    step_index,
                                    traversal_index,
                                ),
                            ),
                            ..progress.node
                        },
                        exits: branch.exit_nodes,
                        rolling: branch.rolling_result,
                        success: true,
                    },
                }
            },
        };
        spec_follow(
            graph,
            steps,
            next,
            edges.skip(1),
            current_step,
            seen,
            step_index,
            traversal_index,
            fuel,
            limit,
        )
    }
}

/// What step `current_step` and those after it find from each of
/// `start_nodes` in turn, after what `rolling` holds already, and whether
/// any of the start nodes succeeded.
pub open spec fn spec_traverse_starts<TV, EV, AV>(
    graph: Seq<(Uid, NodeView<TV, EV, AV>)>,
    steps: Seq<TraversalStepView<EV>>,
    start_nodes: Seq<TraversalNodeView<TV, EV, AV>>,
    current_step: nat,
    rolling: Seq<(usize, TraversalStepResultView<TV, EV, AV>)>,
    success: bool,
    limit: nat,
) -> (Seq<(usize, TraversalStepResultView<TV, EV, AV>)>, bool)
    decreases steps.len() - current_step, limit + 1, start_nodes.len(),
{
    if start_nodes.len() == 0 || current_step >= steps.len() {
        (rolling, success)
    } else {
        let start = start_nodes[0];
        let (next, ok) = match spec_traverse_step_item(
            graph,
            steps,
            start,
            current_step,
            Set::empty(),
            0,
            start.traversal_index,
            Seq::empty(),
            rolling,
            limit,
            limit,
        ) {
            None => (rolling, success),
            Some(branch) => (
                branch.rolling_result.push(
                    (
                        current_step as usize,
                        TraversalStepResultView {
                            entry: branch.result,
                            endpoints: branch.exit_nodes,
                        },
                    ),
                ),
                true,
            ),
        };
        spec_traverse_starts(graph, steps, start_nodes.skip(1), current_step, next, ok, limit)
    }
}

/// What step `current_step` and those after it find from `start_nodes`,
/// after what `rolling_result` holds already: `None` where none of the
/// start nodes succeeds. Past the last step there is nothing left to find.
pub open spec fn spec_traverse_step<TV, EV, AV>(
    graph: Seq<(Uid, NodeView<TV, EV, AV>)>,
    steps: Seq<TraversalStepView<EV>>,
    start_nodes: Seq<TraversalNodeView<TV, EV, AV>>,
    current_step: nat,
    rolling_result: Seq<(usize, TraversalStepResultView<TV, EV, AV>)>,
    limit: nat,
) -> Option<Seq<(usize, TraversalStepResultView<TV, EV, AV>)>>
    decreases steps.len() - current_step, limit + 2, 0nat,
{
    if current_step >= steps.len() {
        Some(rolling_result)
    } else {
        let (found, success) = spec_traverse_starts(
            graph,
            steps,
            start_nodes,
            current_step,
            rolling_result,
            false,
            limit,
        );
        if success {
            Some(found)
        } else {
            None
        }
    }
}

/// The same records once more.
pub fn duplicate_records<T: GraphTraits, E: GraphTraits, A: GraphTraits>(
    records: &Vec<StepRecord<T, E, A>>,
) -> (r: Vec<StepRecord<T, E, A>>)
    ensures
        view_all(r@) == view_all(records@),
{
    let mut r: Vec<StepRecord<T, E, A>> = Vec::new();
    let mut i: usize = 0;
    assert(view_all(r@) =~= view_all(records@).take(0));
    while i < records.len()
        invariant
            i <= records.len(),
            view_all(r@) == view_all(records@).take(i as int),
        decreases records.len() - i,
    {
        let copy = StepRecord { step: records[i].step, result: records[i].result.duplicate() };
        proof {
            lemma_view_all_push(r@, copy);
            lemma_take_step(view_all(records@), i as int);
        }
        r.push(copy);
        i += 1;
    }
    proof {
        lemma_take_all(view_all(records@));
    }
    r
}

/// The edges that a step may follow from `node`.
pub fn usable_edges<T: GraphTraits, E: GraphTraits, A: GraphTraits>(
    graph: &ViewGraph<T, E, A>,
    node: &ReadReactiveNode<T, E, A>,
    finder: &EdgeFinder<E>,
    seen: &UidSet,
) -> (r: Vec<EdgeDescriptor<E>>)
    ensures
        view_all(r@) == spec_usable_edges(graph@.nodes, node@, finder@, uid_set_members(*seen)),
{
    let mut r: Vec<EdgeDescriptor<E>> = Vec::new();
    match node.search_for_edge(finder) {
        None => {
            assert(view_all(r@) =~= Seq::<EdgeDescriptor<E::V>>::empty());
        },
        Some(found) => {
            let ghost admits = |e: EdgeDescriptor<E::V>|
                has_key(graph@.nodes, e.target) && !uid_set_members(*seen).contains(e.target);
            let mut i: usize = 0;
            assert(view_all(r@) =~= Seq::<EdgeDescriptor<E::V>>::empty());
            while i < found.len()
                invariant
                    i <= found@.len(),
                    admits == |e: EdgeDescriptor<E::V>|
                        has_key(graph@.nodes, e.target) && !uid_set_members(*seen).contains(
                            e.target,
                        ),
                    view_all(r@) == keep(found@.take(i as int), admits),
                decreases found@.len() - i,
            {
                proof {
                    lemma_take_step(found@, i as int);
                }
                let edge = found.get(i);
                if graph.nodes.contains_key(&edge.target) && !uid_set_contains(seen, edge.target) {
                    let copy = edge.duplicate();
                    proof {
                        lemma_view_all_push(r@, copy);
                    }
                    r.push(copy);
                }
                i += 1;
            }
            proof {
                lemma_take_all(found@);
            }
        },
    }
    r
}

/// Searches on from `node`, which step `current_step` has reached after
/// `step_index` edges.
pub fn traverse_step_item<T: GraphTraits, E: GraphTraits, A: GraphTraits>(
    graph: &ViewGraph<T, E, A>,
    steps: &Vec<TraversalStep<E>>,
    node: TraversalNode<T, E, A>,
    current_step: usize,
    visited_step: &UidSet,
    step_index: usize,
    traversal_index: usize,
    exit_nodes: Vec<TraversalNode<T, E, A>>,
    rolling_result: Vec<StepRecord<T, E, A>>,
    fuel: usize,
    limit: usize,
) -> (r: Option<TraversalStepItemRecursiveResult<T, E, A>>)
    ensures
        view_opt(r) == spec_traverse_step_item(
            graph@.nodes,
            view_all(steps@),
            node@,
            current_step as nat,
            uid_set_members(*visited_step),
            step_index,
            traversal_index,
            view_all(exit_nodes@),
            view_all(rolling_result@),
            fuel as nat,
            limit as nat,
        ),
    decreases steps.len() - current_step, fuel, 0nat,
{
    if current_step >= steps.len() {
        return None;
    }
    let step = &steps[current_step];
    let step_satisfied = step.count.is_satisfied(step_index);
    let upper_bound_met = step.count.upper_bound_met(step_index);
    let mut seen = uid_set_clone(visited_step);
    uid_set_insert(&mut seen, node.node.id);
    let usable = if fuel > 0 && step_index < usize::MAX && traversal_index < usize::MAX {
        usable_edges(graph, &node.node, &step.edge_finder, &seen)
    } else {
        Vec::new()
    };
    assert(!may_descend(fuel as nat, step_index, traversal_index) ==> view_all(usable@)
        =~= Seq::<EdgeDescriptor<E::V>>::empty());
    if upper_bound_met && !step_satisfied {
        return None;
    }
    let mut progress = Progress { node, exits: exit_nodes, rolling: rolling_result, success: false };
    if step_satisfied && (step.count.is_inclusive() || upper_bound_met || (
    step.count.is_exclusive() && usable.len() == 0)) {
        let mut starts: Vec<TraversalNode<T, E, A>> = Vec::new();
        let copy = progress.node.duplicate();
        proof {
            lemma_view_all_push(starts@, copy);
            assert(view_all(starts@.push(copy)) =~= seq![progress.node@]);
        }
        starts.push(copy);
        let result = traverse_step(
            graph,
            steps,
            starts,
            current_step + 1,
            duplicate_records(&progress.rolling),
            limit,
        );
        match result {
            Some(successful_completion) => {
                let exit = progress.node.duplicate();
                proof {
                    lemma_view_all_push(progress.exits@, exit);
                }
                progress.exits.push(exit);
                progress.rolling = successful_completion;
                progress.success = true;
            },
            None => {},
        }
    }
    if !upper_bound_met && fuel > 0 {
        progress = follow(
            graph,
            steps,
            progress,
            &usable,
            current_step,
            &seen,
            step_index,
            traversal_index,
            fuel - 1,
            limit,
        );
    }
    if progress.success {
        Some(
            TraversalStepItemRecursiveResult {
                result: progress.node,
                exit_nodes: progress.exits,
                rolling_result: progress.rolling,
            },
        )
    } else {
        None
    }
}

/// Follows each of `edges` from the node of `progress` in turn.
fn follow<T: GraphTraits, E: GraphTraits, A: GraphTraits>(
    graph: &ViewGraph<T, E, A>,
    steps: &Vec<TraversalStep<E>>,
    progress: Progress<T, E, A>,
    edges: &Vec<EdgeDescriptor<E>>,
    current_step: usize,
    seen: &UidSet,
    step_index: usize,
    traversal_index: usize,
    fuel: usize,
    limit: usize,
) -> (r: Progress<T, E, A>)
    requires
        edges@.len() > 0 ==> (step_index < usize::MAX && traversal_index < usize::MAX),
    ensures
        r@ == spec_follow(
            graph@.nodes,
            view_all(steps@),
            progress@,
            view_all(edges@),
            current_step as nat,
            uid_set_members(*seen),
            step_index,
            traversal_index,
            fuel as nat,
            limit as nat,
        ),
    decreases steps.len() - current_step, fuel, 1nat,
{
    let mut state = progress;
    if current_step >= steps.len() {
        return state;
    }
    let ghost all = view_all(edges@);
    let mut i: usize = 0;
    proof {
        lemma_skip_none(all);
    }
    while i < edges.len()
        invariant
            i <= edges.len(),
            current_step < steps.len(),
            all == view_all(edges@),
            edges@.len() > 0 ==> (step_index < usize::MAX && traversal_index < usize::MAX),
            spec_follow(
                graph@.nodes,
                view_all(steps@),
                progress@,
                all,
                current_step as nat,
                uid_set_members(*seen),
                step_index,
                traversal_index,
                fuel as nat,
                limit as nat,
            ) == spec_follow(
                graph@.nodes,
                view_all(steps@),
                state@,
                all.skip(i as int),
                current_step as nat,
                uid_set_members(*seen),
                step_index,
                traversal_index,
                fuel as nat,
                limit as nat,
            ),
        decreases edges.len() - i,
    {
        proof {
            lemma_skip_step(all, i as int);
        }
        let edge = &edges[i];
        match graph.nodes.get(&edge.target) {
            None => {},
            Some(target) => {
                let new_trav_node = TraversalNode::new(
                    target.duplicate(),
                    step_index + 1,
                    traversal_index + 1,
                ).set_upstream_edge(
                    UpstreamEdge::new(
                        edge.duplicate(),
                        steps[current_step].duplicate(),
                        step_index,
                        traversal_index,
                    ),
                );
                let edge_result = traverse_step_item(
                    graph,
                    steps,
                    new_trav_node,
                    current_step,
                    seen,
                    step_index + 1,
                    traversal_index + 1,
                    duplicate_nodes(&state.exits),
                    duplicate_records(&state.rolling),
                    fuel,
                    limit,
                );
                match edge_result {
                    None => {},
                    Some(successful_branch) => {
                        let downstream = TraversalEdge::new(
                            edge.duplicate(),
                            steps[current_step].duplicate(),
                            successful_branch.result.node.id,
                            step_index,
                            traversal_index,
                        );
                        state = Progress {
                            node: state.node.add_downstream_edge(downstream),
                            exits: successful_branch.exit_nodes,
                            rolling: successful_branch.rolling_result,
                            success: true,
                        };
                    },
                }
            },
        }
        i += 1;
    }
    state
}

/// Runs step `current_step` and those after it from each of `start_nodes`.
pub fn traverse_step<T: GraphTraits, E: GraphTraits, A: GraphTraits>(
    graph: &ViewGraph<T, E, A>,
    steps: &Vec<TraversalStep<E>>,
    start_nodes: Vec<TraversalNode<T, E, A>>,
    current_step: usize,
    rolling_result: Vec<StepRecord<T, E, A>>,
    limit: usize,
) -> (r: Option<Vec<StepRecord<T, E, A>>>)
    ensures
        match r {
            Some(found) => spec_traverse_step(
                graph@.nodes,
                view_all(steps@),
                view_all(start_nodes@),
                current_step as nat,
                view_all(rolling_result@),
                limit as nat,
            ) == Some(view_all(found@)),
            None => spec_traverse_step(
                graph@.nodes,
                view_all(steps@),
                view_all(start_nodes@),
                current_step as nat,
                view_all(rolling_result@),
                limit as nat,
            ) is None,
        },
    decreases steps.len() - current_step, limit + 2, 0nat,
{
    if current_step >= steps.len() {
        return Some(rolling_result);
    }
    let mut is_successful_completion = false;
    let mut new_rolling_result = rolling_result;
    let ghost all = view_all(start_nodes@);
    let ghost begin = view_all(new_rolling_result@);
    let mut i: usize = 0;
    proof {
        lemma_skip_none(all);
    }
    while i < start_nodes.len()
        invariant
            i <= start_nodes.len(),
            current_step < steps.len(),
            all == view_all(start_nodes@),
            spec_traverse_starts(
                graph@.nodes,
                view_all(steps@),
                all,
                current_step as nat,
                begin,
                false,
                limit as nat,
            ) == spec_traverse_starts(
                graph@.nodes,
                view_all(steps@),
                all.skip(i as int),
                current_step as nat,
                view_all(new_rolling_result@),
                is_successful_completion,
                limit as nat,
            ),
        decreases start_nodes.len() - i,
    {
        proof {
            lemma_skip_step(all, i as int);
        }
        let start_node = &start_nodes[i];
        let no_exits: Vec<TraversalNode<T, E, A>> = Vec::new();
        assert(view_all(no_exits@) =~= Seq::<TraversalNodeView<T::V, E::V, A::V>>::empty());
        let step_item_results = traverse_step_item(
            graph,
            steps,
            start_node.duplicate(),
            current_step,
            &uid_set_new(),
            0,
            start_node.traversal_index,
            no_exits,
            duplicate_records(&new_rolling_result),
            limit,
            limit,
        );
        match step_item_results {
            None => {},
            Some(successful_item_branch) => {
                is_successful_completion = true;
                let record = StepRecord {
                    step: current_step,
                    result: successful_item_branch.into_traversal_step_result(),
                };
                new_rolling_result = successful_item_branch.rolling_result;
                proof {
                    lemma_view_all_push(new_rolling_result@, record);
                }
                new_rolling_result.push(record);
            },
        }
        i += 1;
    }
    if !is_successful_completion {
        return None;
    }
    Some(new_rolling_result)
}

} // verus!
