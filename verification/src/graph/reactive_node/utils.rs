//! The edges of a node, kept by edge type.

use vstd::prelude::*;

use crate::blueprint::new_node::{find_more, spec_find_more};
use crate::blueprint::update_node::items_of;
use crate::collections::seq_model::{
    drop_key, insert_unique, lemma_skip_none, lemma_skip_step, lookup, put, without,
};
use crate::collections::{VecMap, VecSet};
use crate::common::{
    EdgeDescriptor, EdgeDir, EdgeFinder, EdgeFinderView, GraphTraits, GraphValue,
};

verus! {

/// The edges of one direction of a node, by edge type.
pub type EdgeMap<E> = VecMap<E, VecSet<EdgeDescriptor<E>>>;

/// What a search with `finder` through the lists of `map` adds to `found`.
pub open spec fn spec_search_map<EV>(
    found: Seq<EdgeDescriptor<EV>>,
    map: Seq<(EV, Seq<EdgeDescriptor<EV>>)>,
    finder: EdgeFinderView<EV>,
) -> Seq<EdgeDescriptor<EV>>
    decreases map.len(),
{
    if map.len() == 0 {
        found
    } else {
        spec_search_map(spec_find_more(found, map[0].1, finder), map.skip(1), finder)
    }
}

/// `map` with `edge` in the list of its type.
pub open spec fn spec_map_add<EV>(
    map: Seq<(EV, Seq<EdgeDescriptor<EV>>)>,
    edge: EdgeDescriptor<EV>,
) -> Seq<(EV, Seq<EdgeDescriptor<EV>>)> {
    put(map, edge.edge_type, insert_unique(items_of(lookup(map, edge.edge_type)), edge))
}

/// `map` without `edge`. A list that this empties leaves the map.
pub open spec fn spec_map_remove<EV>(
    map: Seq<(EV, Seq<EdgeDescriptor<EV>>)>,
    edge: EdgeDescriptor<EV>,
) -> Seq<(EV, Seq<EdgeDescriptor<EV>>)> {
    match lookup(map, edge.edge_type) {
        None => map,
        Some(list) => {
            if without(list, edge).len() == 0 {
                drop_key(map, edge.edge_type)
            } else {
                put(map, edge.edge_type, without(list, edge))
            }
        },
    }
}

/// Adds to `found` what a search with `edge_finder` finds in the lists of
/// `map`.
pub fn search_map_more<E: GraphTraits>(
    found: &mut VecSet<EdgeDescriptor<E>>,
    edge_finder: &EdgeFinder<E>,
    map: &EdgeMap<E>,
)
    ensures
        final(found)@ == spec_search_map(old(found)@, map@, edge_finder@),
{
    let mut i: usize = 0;
    proof {
        lemma_skip_none(map@);
    }
    while i < map.len()
        invariant
            i <= map@.len(),
            spec_search_map(old(found)@, map@, edge_finder@) == spec_search_map(
                found@,
                map@.skip(i as int),
                edge_finder@,
            ),
        decreases map@.len() - i,
    {
        proof {
            lemma_skip_step(map@, i as int);
        }
        find_more(found, map.value_at(i), edge_finder);
        i += 1;
    }
}

/// The edges in the lists of `map` that `edge_finder` matches: all of
/// them, or the first.
pub fn search_map_for_edge<E: GraphTraits>(edge_finder: &EdgeFinder<E>, map: &EdgeMap<E>) -> (r:
    VecSet<EdgeDescriptor<E>>)
    ensures
        r@ == spec_search_map(Seq::empty(), map@, edge_finder@),
{
    let mut found: VecSet<EdgeDescriptor<E>> = VecSet::new();
    search_map_more(&mut found, edge_finder, map);
    found
}

/// Puts `edge` into the list of its type.
pub fn map_add<E: GraphTraits>(map: &mut EdgeMap<E>, edge: EdgeDescriptor<E>)
    ensures
        final(map)@ == spec_map_add(old(map)@, edge@),
{
    let mut list = match map.get(&edge.edge_type) {
        Some(list) => list.duplicate(),
        None => VecSet::new(),
    };
    let key = edge.edge_type.duplicate();
    list.insert(edge);
    map.insert(key, list);
}

/// Takes `edge` out of the list of its type.
pub fn map_remove<E: GraphTraits>(map: &mut EdgeMap<E>, edge: &EdgeDescriptor<E>)
    ensures
        final(map)@ == spec_map_remove(old(map)@, edge@),
{
    let list = match map.get(&edge.edge_type) {
        Some(list) => Some(list.duplicate()),
        None => None,
    };
    match list {
        None => {},
        Some(list) => {
            let mut list = list;
            list.remove(edge);
            if list.is_empty() {
                map.remove(&edge.edge_type);
            } else {
                map.insert(edge.edge_type.duplicate(), list);
            }
        },
    }
}

/// The edges of a node: those that arrive and those that leave.
pub struct EdgeMaps<EV> {
    pub incoming: Seq<(EV, Seq<EdgeDescriptor<EV>>)>,
    pub outgoing: Seq<(EV, Seq<EdgeDescriptor<EV>>)>,
}

impl<EV> EdgeMaps<EV> {
    /// No edges at all.
    pub open spec fn none() -> Self {
        EdgeMaps { incoming: Seq::empty(), outgoing: Seq::empty() }
    }

    /// With `edge` among those of its direction.
    pub open spec fn place(self, edge: EdgeDescriptor<EV>) -> Self {
        match edge.dir {
            EdgeDir::Recv => EdgeMaps { incoming: spec_map_add(self.incoming, edge), ..self },
            EdgeDir::Emit => EdgeMaps { outgoing: spec_map_add(self.outgoing, edge), ..self },
        }
    }

    /// Without `edge`.
    pub open spec fn displace(self, edge: EdgeDescriptor<EV>) -> Self {
        match edge.dir {
            EdgeDir::Recv => EdgeMaps { incoming: spec_map_remove(self.incoming, edge), ..self },
            EdgeDir::Emit => EdgeMaps { outgoing: spec_map_remove(self.outgoing, edge), ..self },
        }
    }

    /// With each of `edges` placed, in order.
    pub open spec fn place_all(self, edges: Seq<EdgeDescriptor<EV>>) -> Self
        decreases edges.len(),
    {
        if edges.len() == 0 {
            self
        } else {
            self.place(edges[0]).place_all(edges.skip(1))
        }
    }

    /// With each of `edges` taken away, in order.
    pub open spec fn displace_all(self, edges: Seq<EdgeDescriptor<EV>>) -> Self
        decreases edges.len(),
    {
        if edges.len() == 0 {
            self
        } else {
            self.displace(edges[0]).displace_all(edges.skip(1))
        }
    }
}

/// Places each of `edges` in the map of its direction.
pub fn place_edges<E: GraphTraits>(
    incoming: &mut EdgeMap<E>,
    outgoing: &mut EdgeMap<E>,
    edges: &VecSet<EdgeDescriptor<E>>,
)
    ensures
        (EdgeMaps { incoming: final(incoming)@, outgoing: final(outgoing)@ }) == (EdgeMaps {
            incoming: old(incoming)@,
            outgoing: old(outgoing)@,
        }).place_all(edges@),
{
    let ghost start = EdgeMaps { incoming: incoming@, outgoing: outgoing@ };
    let mut i: usize = 0;
    proof {
        lemma_skip_none(edges@);
    }
    while i < edges.len()
        invariant
            i <= edges@.len(),
            start.place_all(edges@) == (EdgeMaps {
                incoming: incoming@,
                outgoing: outgoing@,
            }).place_all(edges@.skip(i as int)),
        decreases edges@.len() - i,
    {
        proof {
            lemma_skip_step(edges@, i as int);
        }
        let edge = edges.get(i).duplicate();
        match edge.dir {
            EdgeDir::Recv => map_add(incoming, edge),
            EdgeDir::Emit => map_add(outgoing, edge),
        }
        i += 1;
    }
}

/// Takes each of `edges` out of the map of its direction.
pub fn displace_edges<E: GraphTraits>(
    incoming: &mut EdgeMap<E>,
    outgoing: &mut EdgeMap<E>,
    edges: &VecSet<EdgeDescriptor<E>>,
)
    ensures
        (EdgeMaps { incoming: final(incoming)@, outgoing: final(outgoing)@ }) == (EdgeMaps {
            incoming: old(incoming)@,
            outgoing: old(outgoing)@,
        }).displace_all(edges@),
{
    let ghost start = EdgeMaps { incoming: incoming@, outgoing: outgoing@ };
    let mut i: usize = 0;
    proof {
        lemma_skip_none(edges@);
    }
    while i < edges.len()
        invariant
            i <= edges@.len(),
            start.displace_all(edges@) == (EdgeMaps {
                incoming: incoming@,
                outgoing: outgoing@,
            }).displace_all(edges@.skip(i as int)),
        decreases edges@.len() - i,
    {
        proof {
            lemma_skip_step(edges@, i as int);
        }
        let edge = edges.get(i);
        match edge.dir {
            EdgeDir::Recv => map_remove(incoming, edge),
            EdgeDir::Emit => map_remove(outgoing, edge),
        }
        i += 1;
    }
}

/// All edges in the lists of `map`, each once, after those of `acc`.
pub fn flatten_more<E: GraphTraits>(acc: VecSet<EdgeDescriptor<E>>, map: &EdgeMap<E>) -> (r: VecSet<
    EdgeDescriptor<E>,
>)
    ensures
        r@ == crate::collections::seq_model::flatten_into(acc@, map@),
{
    let mut r = acc;
    let mut i: usize = 0;
    proof {
        lemma_skip_none(map@);
    }
    while i < map.len()
        invariant
            i <= map@.len(),
            crate::collections::seq_model::flatten_into(acc@, map@)
                == crate::collections::seq_model::flatten_into(r@, map@.skip(i as int)),
        decreases map@.len() - i,
    {
        proof {
            lemma_skip_step(map@, i as int);
        }
        r = r.union(map.value_at(i));
        i += 1;
    }
    r
}

/// A map with the same lists.
pub fn duplicate_map<E: GraphTraits>(map: &EdgeMap<E>) -> (r: EdgeMap<E>)
    ensures
        r@ == map@,
{
    map.duplicate_with(
        VecSet::<EdgeDescriptor<E>>::duplicate,
    )
}

} // verus!
