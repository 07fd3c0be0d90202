//! Identifiers, edge directions and the traits every caller-supplied type
//! has to meet.

use vstd::prelude::*;

pub mod edge_descriptor;
pub mod edge_finder;
pub mod graph_error;

pub use edge_descriptor::EdgeDescriptor;
pub use edge_finder::{EdgeFinder, EdgeFinderView};
pub use graph_error::{uid_text, GraphError, GraphErrorView, TraversalError};

verus! {

/// A node identifier: 128 bits, unique over the lifetime of a graph.
pub type Uid = u128;

/// A value that can be compared and copied, both judged by its view.
pub trait GraphValue: View + Sized {
    /// Whether the two values have the same view.
    fn same(&self, other: &Self) -> (b: bool)
        ensures
            b == (self@ == other@),
    ;

    /// A second value with the same view.
    fn duplicate(&self) -> (r: Self)
        ensures
            r@ == self@,
    ;
}

/// What a payload, an edge type or an action tag must offer: comparison,
/// copying and a default.
pub trait GraphTraits: GraphValue {
    /// The view of the default value.
    spec fn default_view() -> Self::V;

    /// The default value.
    fn default_value() -> (r: Self)
        ensures
            r@ == Self::default_view(),
    ;
}

impl GraphValue for String {
    fn same(&self, other: &Self) -> (b: bool) {
        *self == *other
    }

    fn duplicate(&self) -> (r: Self) {
        self.clone()
    }
}

impl GraphTraits for String {
    open spec fn default_view() -> Seq<char> {
        Seq::empty()
    }

    fn default_value() -> (r: Self) {
        String::new()
    }
}

impl GraphValue for u128 {
    fn same(&self, other: &Self) -> (b: bool) {
        *self == *other
    }

    fn duplicate(&self) -> (r: Self) {
        *self
    }
}

impl GraphTraits for u128 {
    open spec fn default_view() -> u128 {
        0
    }

    fn default_value() -> (r: Self) {
        0
    }
}

impl GraphValue for u64 {
    fn same(&self, other: &Self) -> (b: bool) {
        *self == *other
    }

    fn duplicate(&self) -> (r: Self) {
        *self
    }
}

impl GraphTraits for u64 {
    open spec fn default_view() -> u64 {
        0
    }

    fn default_value() -> (r: Self) {
        0
    }
}

impl GraphValue for u32 {
    fn same(&self, other: &Self) -> (b: bool) {
        *self == *other
    }

    fn duplicate(&self) -> (r: Self) {
        *self
    }
}

impl GraphTraits for u32 {
    open spec fn default_view() -> u32 {
        0
    }

    fn default_value() -> (r: Self) {
        0
    }
}

impl GraphValue for bool {
    fn same(&self, other: &Self) -> (b: bool) {
        *self == *other
    }

    fn duplicate(&self) -> (r: Self) {
        *self
    }
}

impl GraphTraits for bool {
    open spec fn default_view() -> bool {
        false
    }

    fn default_value() -> (r: Self) {
        false
    }
}

/// The direction of an edge as seen from the node that stores it.
#[derive(Debug, Clone, Copy, PartialEq, Eq, Hash, Structural)]
pub enum EdgeDir {
    Emit,
    Recv,
}

impl EdgeDir {
    /// The opposite direction.
    pub open spec fn spec_invert(self) -> EdgeDir {
        match self {
            EdgeDir::Emit => EdgeDir::Recv,
            EdgeDir::Recv => EdgeDir::Emit,
        }
    }

    /// The opposite direction.
    pub fn invert(&self) -> (r: EdgeDir)
        ensures
            r == self.spec_invert(),
    {
        match self {
            EdgeDir::Emit => EdgeDir::Recv,
            EdgeDir::Recv => EdgeDir::Emit,
        }
    }
}

impl View for EdgeDir {
    type V = EdgeDir;

    open spec fn view(&self) -> EdgeDir {
        *self
    }
}

impl GraphValue for EdgeDir {
    fn same(&self, other: &Self) -> (b: bool) {
        *self == *other
    }

    fn duplicate(&self) -> (r: Self) {
        *self
    }
}

/// The render information of an inverted edge.
pub open spec fn spec_invert_render(info: Option<EdgeDir>) -> Option<EdgeDir> {
    match info {
        Some(d) => Some(d.spec_invert()),
        None => None,
    }
}

/// Inverts the render information of an edge, if it carries any.
pub fn invert_render(info: Option<EdgeDir>) -> (r: Option<EdgeDir>)
    ensures
        r == spec_invert_render(info),
{
    match info {
        Some(d) => Some(d.invert()),
        None => None,
    }
}

} // verus!
