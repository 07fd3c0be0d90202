//! One directed, typed edge as its host node stores it.

use vstd::prelude::*;

use crate::common::{invert_render, spec_invert_render, EdgeDir, GraphTraits, GraphValue, Uid};

verus! {

/// An edge from the point of view of `host`. The node at the other end
/// stores the inverted edge.
#[derive(Debug, Clone, PartialEq, Eq, Hash)]
pub struct EdgeDescriptor<E> {
    pub dir: EdgeDir,
    pub edge_type: E,
    pub host: Uid,
    pub target: Uid,
    pub render_info: Option<EdgeDir>,
}

impl<E: View> View for EdgeDescriptor<E> {
    type V = EdgeDescriptor<E::V>;

    open spec fn view(&self) -> EdgeDescriptor<E::V> {
        EdgeDescriptor {
            dir: self.dir,
            edge_type: self.edge_type@,
            host: self.host,
            target: self.target,
            render_info: self.render_info,
        }
    }
}

impl<E> EdgeDescriptor<E> {
    /// The same edge as the node at its other end stores it.
    pub open spec fn spec_invert(self) -> EdgeDescriptor<E> {
        EdgeDescriptor {
            dir: self.dir.spec_invert(),
            edge_type: self.edge_type,
            host: self.target,
            target: self.host,
            render_info: spec_invert_render(self.render_info),
        }
    }

    /// The same edge with other render information.
    pub open spec fn spec_with_render(self, render_info: Option<EdgeDir>) -> EdgeDescriptor<E> {
        EdgeDescriptor {
            dir: self.dir,
            edge_type: self.edge_type,
            host: self.host,
            target: self.target,
            render_info,
        }
    }
}

impl<E: GraphTraits> EdgeDescriptor<E> {
    pub fn new(
        host_node: Uid,
        edge_type: E,
        other_node: Uid,
        render_info: Option<EdgeDir>,
        direction: EdgeDir,
    ) -> (r: Self)
        ensures
            r@ == (EdgeDescriptor {
                dir: direction,
                edge_type: edge_type@,
                host: host_node,
                target: other_node,
                render_info,
            }),
    {
        EdgeDescriptor {
            host: host_node,
            dir: direction,
            edge_type,
            target: other_node,
            render_info,
        }
    }

    /// Swaps host and target and inverts the direction and the render
    /// information.
    pub fn invert(&self) -> (r: Self)
        ensures
            r@ == self@.spec_invert(),
    {
        EdgeDescriptor {
            edge_type: self.edge_type.duplicate(),
            host: self.target,
            target: self.host,
            dir: self.dir.invert(),
            render_info: invert_render(self.render_info),
        }
    }

    /// The same edge with other render information.
    pub fn with_render(&self, render_info: Option<EdgeDir>) -> (r: Self)
        ensures
            r@ == self@.spec_with_render(render_info),
    {
        EdgeDescriptor {
            edge_type: self.edge_type.duplicate(),
            host: self.host,
            target: self.target,
            dir: self.dir,
            render_info,
        }
    }
}

impl<E: GraphTraits> GraphValue for EdgeDescriptor<E> {
    fn same(&self, other: &Self) -> (b: bool) {
        self.dir == other.dir && self.edge_type.same(&other.edge_type) && self.host == other.host
            && self.target == other.target && self.render_info == other.render_info
    }

    fn duplicate(&self) -> (r: Self) {
        EdgeDescriptor {
            edge_type: self.edge_type.duplicate(),
            host: self.host,
            target: self.target,
            dir: self.dir,
            render_info: self.render_info,
        }
    }
}

/// Inverting an edge twice gives the edge back.
pub proof fn lemma_invert_involution<E>(e: EdgeDescriptor<E>)
    ensures
        e.spec_invert().spec_invert() == e,
{
}

} // verus!
