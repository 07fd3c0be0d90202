//! One step of a path query: which edges to follow, and how many.

use vstd::prelude::*;

use crate::common::{EdgeFinder, EdgeFinderView, GraphTraits};

verus! {

/// How many edges a step may follow, and which of the nodes on the way
/// count as reached.
#[derive(Debug, Clone, Copy, PartialEq, Eq, Hash, Structural)]
pub enum TraversalCount {
    /// At least this many; only the last node of a chain is reached.
    AtLeastExclusive(usize),
    /// At least this many; every node from there on is reached.
    AtLeastInclusive(usize),
    /// Between the two; only the last node of a chain is reached.
    BetweenExclusive(usize, usize),
    /// Between the two; every node in between is reached.
    BetweenInclusive(usize, usize),
    /// Exactly this many.
    Exactly(usize),
}

impl TraversalCount {
    /// Whether `count` edges are enough and not too many.
    pub open spec fn spec_is_satisfied(self, count: nat) -> bool {
        match self {
            TraversalCount::AtLeastInclusive(min) | TraversalCount::AtLeastExclusive(min) => count
                >= min,
            TraversalCount::BetweenExclusive(min, max)
            | TraversalCount::BetweenInclusive(min, max) => min <= count <= max,
            TraversalCount::Exactly(exact) => count == exact,
        }
    }

    /// Whether no edge may follow after `count` edges.
    pub open spec fn spec_upper_bound_met(self, count: nat) -> bool {
        match self {
            TraversalCount::AtLeastInclusive(_) | TraversalCount::AtLeastExclusive(_) => false,
            TraversalCount::BetweenExclusive(_, max) | TraversalCount::BetweenInclusive(_, max) => {
                count == max
            },
            TraversalCount::Exactly(exact) => count == exact,
        }
    }

    /// Whether every node within the bounds is reached.
    pub open spec fn spec_is_inclusive(self) -> bool {
        self is AtLeastInclusive || self is BetweenInclusive
    }

    /// Whether only the last node of a chain is reached.
    pub open spec fn spec_is_exclusive(self) -> bool {
        self is AtLeastExclusive || self is BetweenExclusive
    }

    pub fn is_satisfied(&self, count: usize) -> (b: bool)
        ensures
            b == self.spec_is_satisfied(count as nat),
    {
        match self {
            TraversalCount::AtLeastInclusive(min) | TraversalCount::AtLeastExclusive(min) => {
                count >= *min
            },
            TraversalCount::BetweenExclusive(min, max)
            | TraversalCount::BetweenInclusive(min, max) => count >= *min && count <= *max,
            TraversalCount::Exactly(exact) => count == *exact,
        }
    }

    pub fn upper_bound_met(&self, count: usize) -> (b: bool)
        ensures
            b == self.spec_upper_bound_met(count as nat),
    {
        match self {
            TraversalCount::AtLeastInclusive(_) | TraversalCount::AtLeastExclusive(_) => false,
            TraversalCount::BetweenExclusive(_, max) | TraversalCount::BetweenInclusive(_, max) => {
                count == *max
            },
            TraversalCount::Exactly(exact) => count == *exact,
        }
    }

    pub fn is_inclusive(&self) -> (b: bool)
        ensures
            b == self.spec_is_inclusive(),
    {
        match self {
            TraversalCount::AtLeastInclusive(_) | TraversalCount::BetweenInclusive(_, _) => true,
            _ => false,
        }
    }

    pub fn is_exclusive(&self) -> (b: bool)
        ensures
            b == self.spec_is_exclusive(),
    {
        match self {
            TraversalCount::AtLeastExclusive(_) | TraversalCount::BetweenExclusive(_, _) => true,
            _ => false,
        }
    }
}

#[derive(Debug, Clone)]
pub struct TraversalStep<E> {
    pub edge_finder: EdgeFinder<E>,
    pub count: TraversalCount,
}

/// What a [`TraversalStep`] holds.
pub struct TraversalStepView<EV> {
    pub edge_finder: EdgeFinderView<EV>,
    pub count: TraversalCount,
}

impl<E: View> View for TraversalStep<E> {
    type V = TraversalStepView<E::V>;

    open spec fn view(&self) -> TraversalStepView<E::V> {
        TraversalStepView { edge_finder: self.edge_finder@, count: self.count }
    }
}

impl<E: GraphTraits> TraversalStep<E> {
    pub fn new(edge_finder: EdgeFinder<E>, count: TraversalCount) -> (r: Self)
        ensures
            r@ == (TraversalStepView { edge_finder: edge_finder@, count }),
    {
        TraversalStep { edge_finder, count }
    }

    /// The same step once more.
    pub fn duplicate(&self) -> (r: Self)
        ensures
            r@ == self@,
    {
        TraversalStep { edge_finder: self.edge_finder.duplicate(), count: self.count }
    }
}

} // verus!
