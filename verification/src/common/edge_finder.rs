//! Patterns over edges.

use vstd::prelude::*;

use crate::collections::seq_model::{
    lemma_take_all, lemma_take_step, lookup, union_seq, view_all,
};
use crate::collections::uid_index::{
    uid_set_clone, uid_set_contains, uid_set_insert, uid_set_members, uid_set_new, UidSet,
};
use crate::collections::VecSet;
use crate::common::{
    invert_render, spec_invert_render, EdgeDescriptor, EdgeDir, GraphTraits, Uid,
};
use crate::graph::reactive_node::read_reactive_node::ReadReactiveNode;
use crate::graph::view_graph::ViewGraph;

verus! {

/// A pattern that an edge either matches or not. A field that is `None`
/// admits every edge.
#[derive(Debug, Clone)]
pub struct EdgeFinder<E> {
    pub edge_type: Option<VecSet<E>>,
    pub dir: Option<EdgeDir>,
    pub host: Option<UidSet>,
    pub target: Option<UidSet>,
    pub render_info: Option<Option<EdgeDir>>,
    pub match_all: Option<bool>,
}

/// What an [`EdgeFinder`] holds.
pub struct EdgeFinderView<EV> {
    pub edge_type: Option<Seq<EV>>,
    pub dir: Option<EdgeDir>,
    pub host: Option<Set<Uid>>,
    pub target: Option<Set<Uid>>,
    pub render_info: Option<Option<EdgeDir>>,
    pub match_all: Option<bool>,
}

/// The members of an optional set of identifiers.
pub open spec fn members_of(s: Option<UidSet>) -> Option<Set<Uid>> {
    match s {
        Some(s) => Some(uid_set_members(s)),
        None => None,
    }
}

impl<E: View> View for EdgeFinder<E> {
    type V = EdgeFinderView<E::V>;

    open spec fn view(&self) -> EdgeFinderView<E::V> {
        EdgeFinderView {
            edge_type: match self.edge_type {
                Some(ts) => Some(ts@),
                None => None,
            },
            dir: self.dir,
            host: members_of(self.host),
            target: members_of(self.target),
            render_info: self.render_info,
            match_all: self.match_all,
        }
    }
}

impl<EV> EdgeFinderView<EV> {
    /// The pattern that admits every edge.
    pub open spec fn any() -> Self {
        EdgeFinderView {
            edge_type: None,
            dir: None,
            host: None,
            target: None,
            render_info: None,
            match_all: None,
        }
    }

    /// Whether `edge` meets every field that is set.
    pub open spec fn spec_matches(self, edge: EdgeDescriptor<EV>) -> bool {
        &&& self.edge_type matches Some(ts) ==> ts.contains(edge.edge_type)
        &&& self.dir matches Some(d) ==> d == edge.dir
        &&& self.host matches Some(hs) ==> hs.contains(edge.host)
        &&& self.target matches Some(ts) ==> ts.contains(edge.target)
        &&& self.render_info matches Some(r) ==> r == edge.render_info
    }

    /// Whether a search with this pattern collects every matching edge
    /// rather than the first one.
    pub open spec fn wants_all(self) -> bool {
        self.match_all == Some(true)
    }

    /// The pattern that the inverted edges match.
    pub open spec fn spec_invert(self) -> Self {
        EdgeFinderView {
            edge_type: self.edge_type,
            dir: match self.dir {
                Some(d) => Some(d.spec_invert()),
                None => None,
            },
            host: self.target,
            target: self.host,
            render_info: match self.render_info {
                Some(r) => Some(spec_invert_render(r)),
                None => None,
            },
            match_all: self.match_all,
        }
    }
}

fn clone_members(s: &Option<UidSet>) -> (r: Option<UidSet>)
    ensures
        members_of(r) == members_of(*s),
{
    match s {
        Some(s) => Some(uid_set_clone(s)),
        None => None,
    }
}

fn set_of(ids: &Vec<Uid>) -> (r: UidSet)
    ensures
        uid_set_members(r) == ids@.to_set(),
{
    let mut r = uid_set_new();
    let mut i: usize = 0;
    while i < ids.len()
        invariant
            i <= ids.len(),
            uid_set_members(r) == ids@.take(i as int).to_set(),
        decreases ids.len() - i,
    {
        uid_set_insert(&mut r, ids[i]);
        proof {
            lemma_take_step(ids@, i as int);
            ids@.take(i as int).lemma_push_to_set_commute(ids@[i as int]);
        }
        i += 1;
    }
    proof {
        lemma_take_all(ids@);
    }
    r
}

impl<E: GraphTraits> EdgeFinder<E> {
    /// The pattern that admits every edge.
    pub fn new() -> (r: Self)
        ensures
            r@ == EdgeFinderView::<E::V>::any(),
    {
        EdgeFinder {
            edge_type: None,
            dir: None,
            host: None,
            target: None,
            render_info: None,
            match_all: None,
        }
    }

    /// A pattern with the same fields.
    pub fn duplicate(&self) -> (r: Self)
        ensures
            r@ == self@,
    {
        EdgeFinder {
            edge_type: match &self.edge_type {
                Some(ts) => Some(ts.duplicate()),
                None => None,
            },
            dir: self.dir,
            host: clone_members(&self.host),
            target: clone_members(&self.target),
            render_info: self.render_info,
            match_all: self.match_all,
        }
    }

    /// Admits edges of this type only.
    pub fn edge_type(&self, edge_type: E) -> (r: Self)
        ensures
            r@ == (EdgeFinderView { edge_type: Some(seq![edge_type@]), ..self@ }),
    {
        let mut r = self.duplicate();
        r.edge_type = Some(VecSet::unit(edge_type));
        r
    }

    /// Admits edges of these types only.
    pub fn edge_types(&self, edge_types: Vec<E>) -> (r: Self)
        ensures
            r@ == (EdgeFinderView {
                edge_type: Some(union_seq(Seq::empty(), view_all(edge_types@))),
                ..self@
            }),
    {
        let mut r = self.duplicate();
        r.edge_type = Some(VecSet::from_vec(edge_types));
        r
    }

    /// Admits edges of this direction only.
    pub fn dir(&self, direction: EdgeDir) -> (r: Self)
        ensures
            r@ == (EdgeFinderView { dir: Some(direction), ..self@ }),
    {
        let mut r = self.duplicate();
        r.dir = Some(direction);
        r
    }

    /// Admits edges stored on this node only.
    pub fn host(&self, host_node: Uid) -> (r: Self)
        ensures
            r@ == (EdgeFinderView { host: Some(set![host_node]), ..self@ }),
    {
        let mut r = self.duplicate();
        let mut s = uid_set_new();
        uid_set_insert(&mut s, host_node);
        assert(uid_set_members(s) =~= set![host_node]);
        r.host = Some(s);
        r
    }

    /// Admits edges stored on one of these nodes only.
    pub fn hosts(&self, host_nodes: Vec<Uid>) -> (r: Self)
        ensures
            r@ == (EdgeFinderView { host: Some(host_nodes@.to_set()), ..self@ }),
    {
        let mut r = self.duplicate();
        r.host = Some(set_of(&host_nodes));
        r
    }

    /// Admits edges that lead to this node only.
    pub fn target(&self, target_node: Uid) -> (r: Self)
        ensures
            r@ == (EdgeFinderView { target: Some(set![target_node]), ..self@ }),
    {
        let mut r = self.duplicate();
        let mut s = uid_set_new();
        uid_set_insert(&mut s, target_node);
        assert(uid_set_members(s) =~= set![target_node]);
        r.target = Some(s);
        r
    }

    /// Admits edges that lead to one of these nodes only.
    pub fn targets(&self, target_nodes: Vec<Uid>) -> (r: Self)
        ensures
            r@ == (EdgeFinderView { target: Some(target_nodes@.to_set()), ..self@ }),
    {
        let mut r = self.duplicate();
        r.target = Some(set_of(&target_nodes));
        r
    }

    /// Admits edges with exactly this render information only; `None` here
    /// admits the edges that carry none.
    pub fn render_info(&self, is_render: Option<EdgeDir>) -> (r: Self)
        ensures
            r@ == (EdgeFinderView { render_info: Some(is_render), ..self@ }),
    {
        let mut r = self.duplicate();
        r.render_info = Some(is_render);
        r
    }

    /// Makes a search collect every matching edge rather than the first.
    pub fn match_all(&self) -> (r: Self)
        ensures
            r@ == (EdgeFinderView { match_all: Some(true), ..self@ }),
    {
        let mut r = self.duplicate();
        r.match_all = Some(true);
        r
    }

    /// The pattern that the inverted edges match.
    pub fn invert(&self) -> (r: Self)
        ensures
            r@ == self@.spec_invert(),
    {
        EdgeFinder {
            edge_type: match &self.edge_type {
                Some(ts) => Some(ts.duplicate()),
                None => None,
            },
            dir: match self.dir {
                Some(d) => Some(d.invert()),
                None => None,
            },
            host: clone_members(&self.target),
            target: clone_members(&self.host),
            render_info: match self.render_info {
                Some(r) => Some(invert_render(r)),
                None => None,
            },
            match_all: self.match_all,
        }
    }

    /// Whether a search with this pattern collects every matching edge.
    pub fn wants_all(&self) -> (b: bool)
        ensures
            b == self@.wants_all(),
    {
        match self.match_all {
            Some(b) => b,
            None => false,
        }
    }

    /// Whether `edge` meets every field that is set and leads to a node of
    /// `graph` that `gate` admits. `gate` is asked only where the pattern
    /// matches and the node is there.
    pub fn matches_gated<T: GraphTraits, A: GraphTraits, F: Fn(&ReadReactiveNode<T, E, A>) -> bool>(
        &self,
        edge: &EdgeDescriptor<E>,
        graph: &ViewGraph<T, E, A>,
        gate: F,
    ) -> (b: bool)
        requires
            forall|n: &ReadReactiveNode<T, E, A>| #[trigger] gate.requires((n,)),
        ensures
            b ==> self@.spec_matches(edge@) && lookup(graph@.nodes, edge@.target) is Some,
            !self@.spec_matches(edge@) ==> !b,
            lookup(graph@.nodes, edge@.target) is None ==> !b,
            self@.spec_matches(edge@) && lookup(graph@.nodes, edge@.target) is Some ==> exists|
                n: &ReadReactiveNode<T, E, A>,
            |
                lookup(graph@.nodes, edge@.target) == Some(n@) && #[trigger] gate.ensures((n,), b),
    {
        if !self.matches(edge) {
            return false;
        }
        match graph.get_node(&edge.target) {
            Ok(node) => gate(node),
            Err(_) => false,
        }
    }

    /// Whether `edge` meets every field that is set.
    pub fn matches(&self, edge: &EdgeDescriptor<E>) -> (b: bool)
        ensures
            b == self@.spec_matches(edge@),
    {
        let edge_type_matches = match &self.edge_type {
            Some(ts) => ts.contains(&edge.edge_type),
            None => true,
        };
        if !edge_type_matches {
            return false;
        }
        let direction_matches = match self.dir {
            Some(d) => d == edge.dir,
            None => true,
        };
        if !direction_matches {
            return false;
        }
        let host_node_matches = match &self.host {
            Some(hs) => uid_set_contains(hs, edge.host),
            None => true,
        };
        if !host_node_matches {
            return false;
        }
        let other_node_matches = match &self.target {
            Some(ts) => uid_set_contains(ts, edge.target),
            None => true,
        };
        if !other_node_matches {
            return false;
        }
        match self.render_info {
            Some(r) => r == edge.render_info,
            None => true,
        }
    }
}

/// An inverted pattern matches the inverted edge exactly when the pattern
/// matches the edge.
pub proof fn law_inverted_pattern_matches_inverted_edge<EV>(finder: EdgeFinderView<EV>, edge: EdgeDescriptor<EV>)
    ensures
        finder.spec_invert().spec_matches(edge.spec_invert()) == finder.spec_matches(edge),
{
    match edge.render_info {
        Some(d) => {},
        None => {},
    }
    match finder.render_info {
        Some(Some(d)) => {},
        _ => {},
    }
}

} // verus!
