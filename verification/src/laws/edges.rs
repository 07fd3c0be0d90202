//! The edges of a node, as a set.

use vstd::prelude::*;

use crate::blueprint::update_node::items_of;
use crate::collections::seq_facts::{
    lemma_drop_keeps_unique, lemma_insert_keeps_distinct, lemma_lookup_drop_other,
    lemma_lookup_drop_same, lemma_lookup_put_other, lemma_lookup_put_same, lemma_put_keeps_unique,
    lemma_without_members, unique_keys,
};
use crate::collections::seq_model::{
    drop_key, flatten_into, insert_unique, key_index, lemma_insert_members, lemma_key_index,
    lemma_union_members, lookup, put, union_seq, without,
};
use crate::common::{EdgeDescriptor, EdgeDir};
use crate::graph::reactive_node::utils::{spec_map_add, spec_map_remove, EdgeMaps};

verus! {

/// Whether the list under each key of `map` is free of duplicates and holds
/// only edges of that type and of direction `dir`.
pub open spec fn tidy<EV>(map: Seq<(EV, Seq<EdgeDescriptor<EV>>)>, dir: EdgeDir) -> bool {
    forall|i: int|
        0 <= i < map.len() ==> (#[trigger] map[i]).1.no_duplicates() && forall|j: int|
            0 <= j < map[i].1.len() ==> (#[trigger] map[i].1[j]).edge_type == map[i].0
                && map[i].1[j].dir == dir
}

/// Whether one direction of a node's edges is in order: one list for each
/// type, each list tidy.
pub open spec fn map_in_order<EV>(map: Seq<(EV, Seq<EdgeDescriptor<EV>>)>, dir: EdgeDir) -> bool {
    unique_keys(map) && tidy(map, dir)
}

/// Whether `map` holds `edge` in the list of its type.
pub open spec fn map_holds<EV>(
    map: Seq<(EV, Seq<EdgeDescriptor<EV>>)>,
    edge: EdgeDescriptor<EV>,
) -> bool {
    items_of(lookup(map, edge.edge_type)).contains(edge)
}

impl<EV> EdgeMaps<EV> {
    /// Whether the node holds `edge`.
    pub open spec fn holds(self, edge: EdgeDescriptor<EV>) -> bool {
        match edge.dir {
            EdgeDir::Recv => map_holds(self.incoming, edge),
            EdgeDir::Emit => map_holds(self.outgoing, edge),
        }
    }

    /// Whether both directions are in order.
    pub open spec fn in_order(self) -> bool {
        map_in_order(self.incoming, EdgeDir::Recv) && map_in_order(self.outgoing, EdgeDir::Emit)
    }
}

/// Every entry of a map after a `put` is the new entry or was there before.
pub proof fn lemma_put_entries<K, V>(m: Seq<(K, V)>, k: K, v: V)
    ensures
        forall|i: int|
            0 <= i < put(m, k, v).len() ==> (#[trigger] put(m, k, v)[i]) == (k, v) || exists|
                j: int,
            |
                0 <= j < m.len() && m[j] == put(m, k, v)[i],
{
    lemma_key_index(m, k);
    let p = put(m, k, v);
    assert forall|i: int| 0 <= i < p.len() implies (#[trigger] p[i]) == (k, v) || exists|j: int|
        0 <= j < m.len() && m[j] == p[i] by {
        if p[i] != (k, v) {
            assert(m[i] == p[i]);
        }
    }
}

/// Every entry of a map after a key is dropped was there before.
pub proof fn lemma_drop_entries<K, V>(m: Seq<(K, V)>, k: K)
    ensures
        forall|i: int|
            0 <= i < drop_key(m, k).len() ==> exists|j: int|
                0 <= j < m.len() && m[j] == #[trigger] drop_key(m, k)[i],
{
    lemma_key_index(m, k);
    let p = drop_key(m, k);
    let x = key_index(m, k);
    assert forall|i: int| 0 <= i < p.len() implies exists|j: int|
        0 <= j < m.len() && m[j] == #[trigger] p[i] by {
        if x >= 0 {
            let j = if i < x {
                i
            } else {
                i + 1
            };
            assert(m[j] == p[i]);
        } else {
            assert(m[i] == p[i]);
        }
    }
}

/// The list under a key of a map in order is tidy.
pub proof fn lemma_found_is_tidy<EV>(
    map: Seq<(EV, Seq<EdgeDescriptor<EV>>)>,
    dir: EdgeDir,
    key: EV,
)
    requires
        tidy(map, dir),
    ensures
        items_of(lookup(map, key)).no_duplicates(),
        forall|j: int|
            0 <= j < items_of(lookup(map, key)).len() ==> (#[trigger] items_of(
                lookup(map, key),
            )[j]).edge_type == key && items_of(lookup(map, key))[j].dir == dir,
{
    lemma_key_index(map, key);
    let i = key_index(map, key);
    if i >= 0 {
        assert(map[i].0 == key);
    }
}

/// A map in order with one more edge of its direction is in order, and
/// holds what it held, and that edge.
pub proof fn lemma_map_add<EV>(
    map: Seq<(EV, Seq<EdgeDescriptor<EV>>)>,
    dir: EdgeDir,
    edge: EdgeDescriptor<EV>,
)
    requires
        edge.dir == dir,
    ensures
        map_in_order(map, dir) ==> map_in_order(spec_map_add(map, edge), dir),
        forall|e: EdgeDescriptor<EV>|
            #[trigger] map_holds(spec_map_add(map, edge), e) <==> map_holds(map, e) || e == edge,
{
    let list = items_of(lookup(map, edge.edge_type));
    let grown = insert_unique(list, edge);
    let after = spec_map_add(map, edge);
    if map_in_order(map, dir) {
        lemma_put_keeps_unique(map, edge.edge_type, grown);
        lemma_found_is_tidy(map, dir, edge.edge_type);
        lemma_insert_keeps_distinct(list, edge);
        lemma_put_entries(map, edge.edge_type, grown);
        assert forall|i: int| 0 <= i < after.len() implies (#[trigger] after[i]).1.no_duplicates()
            && forall|j: int|
            0 <= j < after[i].1.len() ==> (#[trigger] after[i].1[j]).edge_type == after[i].0
                && after[i].1[j].dir == dir by {
            if after[i] == (edge.edge_type, grown) {
                assert forall|j: int| 0 <= j < grown.len() implies (#[trigger] grown[j]).edge_type
                    == edge.edge_type && grown[j].dir == dir by {
                    if j < list.len() {
                        assert(grown[j] == list[j]);
                    }
                }
            } else {
                let j = choose|j: int| 0 <= j < map.len() && map[j] == after[i];
                assert(map[j].1.no_duplicates());
            }
        }
    }
    assert forall|e: EdgeDescriptor<EV>| #[trigger]
        map_holds(after, e) <==> map_holds(map, e) || e == edge by {
        if e.edge_type == edge.edge_type {
            lemma_lookup_put_same(map, edge.edge_type, grown);
            lemma_insert_members(list, edge, e);
        } else {
            lemma_lookup_put_other(map, edge.edge_type, grown, e.edge_type);
        }
    }
}

/// A map in order without one edge is in order, and holds what it held but
/// for that edge.
pub proof fn lemma_map_remove<EV>(
    map: Seq<(EV, Seq<EdgeDescriptor<EV>>)>,
    dir: EdgeDir,
    edge: EdgeDescriptor<EV>,
)
    requires
        map_in_order(map, dir),
    ensures
        map_in_order(spec_map_remove(map, edge), dir),
        forall|e: EdgeDescriptor<EV>|
            #[trigger] map_holds(spec_map_remove(map, edge), e) <==> map_holds(map, e) && e
                != edge,
{
    let after = spec_map_remove(map, edge);
    lemma_found_is_tidy(map, dir, edge.edge_type);
    match lookup(map, edge.edge_type) {
        None => {
            assert forall|e: EdgeDescriptor<EV>| #[trigger]
                map_holds(after, e) <==> map_holds(map, e) && e != edge by {
                if e == edge {
                    assert(!map_holds(map, e));
                }
            }
        },
        Some(list) => {
            let rest = without(list, edge);
            lemma_without_members(list, edge, edge);
            if rest.len() == 0 {
                lemma_drop_keeps_unique(map, edge.edge_type);
                lemma_drop_entries(map, edge.edge_type);
                assert forall|i: int| 0 <= i < after.len() implies (#[trigger] after[
                    i
                ]).1.no_duplicates() && forall|j: int|
                    0 <= j < after[i].1.len() ==> (#[trigger] after[i].1[j]).edge_type == after[
                        i
                    ].0 && after[i].1[j].dir == dir by {
                    let j = choose|j: int| 0 <= j < map.len() && map[j] == after[i];
                    assert(map[j].1.no_duplicates());
                }
                assert forall|e: EdgeDescriptor<EV>| #[trigger]
                    map_holds(after, e) <==> map_holds(map, e) && e != edge by {
                    if e.edge_type == edge.edge_type {
                        lemma_lookup_drop_same(map, edge.edge_type);
                        lemma_without_members(list, edge, e);
                        if list.contains(e) && e != edge {
                            assert(rest.contains(e));
                            let u = choose|u: int| 0 <= u < rest.len() && rest[u] == e;
                        }
                    } else {
                        lemma_lookup_drop_other(map, edge.edge_type, e.edge_type);
                    }
                }
            } else {
                lemma_put_keeps_unique(map, edge.edge_type, rest);
                lemma_put_entries(map, edge.edge_type, rest);
                assert forall|i: int| 0 <= i < after.len() implies (#[trigger] after[
                    i
                ]).1.no_duplicates() && forall|j: int|
                    0 <= j < after[i].1.len() ==> (#[trigger] after[i].1[j]).edge_type == after[
                        i
                    ].0 && after[i].1[j].dir == dir by {
                    if after[i] == (edge.edge_type, rest) {
                        assert forall|j: int| 0 <= j < rest.len() implies (#[trigger] rest[
                            j
                        ]).edge_type == edge.edge_type && rest[j].dir == dir by {
                            lemma_without_members(list, edge, rest[j]);
                            assert(rest.contains(rest[j]));
                            let u = choose|u: int| 0 <= u < list.len() && list[u] == rest[j];
                            assert(list[u].edge_type == edge.edge_type);
                        }
                    } else {
                        let j = choose|j: int| 0 <= j < map.len() && map[j] == after[i];
                        assert(map[j].1.no_duplicates());
                    }
                }
                assert forall|e: EdgeDescriptor<EV>| #[trigger]
                    map_holds(after, e) <==> map_holds(map, e) && e != edge by {
                    if e.edge_type == edge.edge_type {
                        lemma_lookup_put_same(map, edge.edge_type, rest);
                        lemma_without_members(list, edge, e);
                    } else {
                        lemma_lookup_put_other(map, edge.edge_type, rest, e.edge_type);
                    }
                }
            }
        },
    }
}

/// Edges in order with one more edge are in order, and hold what they held,
/// and that edge.
pub proof fn lemma_place<EV>(maps: EdgeMaps<EV>, edge: EdgeDescriptor<EV>)
    ensures
        maps.in_order() ==> maps.place(edge).in_order(),
        forall|e: EdgeDescriptor<EV>|
            #[trigger] maps.place(edge).holds(e) <==> maps.holds(e) || e == edge,
{
    match edge.dir {
        EdgeDir::Recv => lemma_map_add(maps.incoming, EdgeDir::Recv, edge),
        EdgeDir::Emit => lemma_map_add(maps.outgoing, EdgeDir::Emit, edge),
    }
}

/// Edges in order without one edge are in order, and hold what they held
/// but for that edge.
pub proof fn lemma_displace<EV>(maps: EdgeMaps<EV>, edge: EdgeDescriptor<EV>)
    requires
        maps.in_order(),
    ensures
        maps.displace(edge).in_order(),
        forall|e: EdgeDescriptor<EV>|
            #[trigger] maps.displace(edge).holds(e) <==> maps.holds(e) && e != edge,
{
    match edge.dir {
        EdgeDir::Recv => lemma_map_remove(maps.incoming, EdgeDir::Recv, edge),
        EdgeDir::Emit => lemma_map_remove(maps.outgoing, EdgeDir::Emit, edge),
    }
}

/// Edges in order with more edges are in order, and hold what they held,
/// and those edges.
pub proof fn lemma_place_all<EV>(maps: EdgeMaps<EV>, edges: Seq<EdgeDescriptor<EV>>)
    ensures
        maps.in_order() ==> maps.place_all(edges).in_order(),
        forall|e: EdgeDescriptor<EV>|
            #[trigger] maps.place_all(edges).holds(e) <==> maps.holds(e) || edges.contains(e),
    decreases edges.len(),
{
    if edges.len() > 0 {
        lemma_place(maps, edges[0]);
        lemma_place_all(maps.place(edges[0]), edges.skip(1));
        assert forall|e: EdgeDescriptor<EV>| #[trigger]
            maps.place_all(edges).holds(e) <==> maps.holds(e) || edges.contains(e) by {
            let next = maps.place(edges[0]);
            assert(maps.place_all(edges) == next.place_all(edges.skip(1)));
            assert(next.place_all(edges.skip(1)).holds(e) <==> next.holds(e) || edges.skip(
                1,
            ).contains(e));
            assert(next.holds(e) <==> maps.holds(e) || e == edges[0]);
            if edges.skip(1).contains(e) {
                let j = choose|j: int| 0 <= j < edges.skip(1).len() && edges.skip(1)[j] == e;
                assert(edges[j + 1] == e);
            }
            if edges.contains(e) {
                let j = choose|j: int| 0 <= j < edges.len() && edges[j] == e;
                if j > 0 {
                    assert(edges.skip(1)[j - 1] == e);
                }
            }
            if e == edges[0] {
                assert(edges[0] == e);
                assert(edges.contains(e));
            }
        }
    } else {
        assert forall|e: EdgeDescriptor<EV>| !edges.contains(e) by {}
    }
}

/// Edges in order without some edges are in order, and hold what they held
/// but for those edges.
pub proof fn lemma_displace_all<EV>(maps: EdgeMaps<EV>, edges: Seq<EdgeDescriptor<EV>>)
    requires
        maps.in_order(),
    ensures
        maps.displace_all(edges).in_order(),
        forall|e: EdgeDescriptor<EV>|
            #[trigger] maps.displace_all(edges).holds(e) <==> maps.holds(e) && !edges.contains(
                e,
            ),
    decreases edges.len(),
{
    if edges.len() > 0 {
        lemma_displace(maps, edges[0]);
        lemma_displace_all(maps.displace(edges[0]), edges.skip(1));
        assert forall|e: EdgeDescriptor<EV>| #[trigger]
            maps.displace_all(edges).holds(e) <==> maps.holds(e) && !edges.contains(e) by {
            if edges.skip(1).contains(e) {
                let j = choose|j: int| 0 <= j < edges.skip(1).len() && edges.skip(1)[j] == e;
                assert(edges[j + 1] == e);
            }
            if edges.contains(e) {
                let j = choose|j: int| 0 <= j < edges.len() && edges[j] == e;
                if j > 0 {
                    assert(edges.skip(1)[j - 1] == e);
                }
            }
            assert(edges[0] == edges[0]);
        }
    } else {
        assert forall|e: EdgeDescriptor<EV>| !edges.contains(e) by {}
    }
}

/// The edges in the lists of a map, put together, are those of `acc` and
/// those that any list holds.
pub proof fn lemma_flatten_members<EV>(
    acc: Seq<EdgeDescriptor<EV>>,
    map: Seq<(EV, Seq<EdgeDescriptor<EV>>)>,
    e: EdgeDescriptor<EV>,
)
    ensures
        flatten_into(acc, map).contains(e) <==> acc.contains(e) || exists|i: int|
            0 <= i < map.len() && (#[trigger] map[i]).1.contains(e),
    decreases map.len(),
{
    if map.len() > 0 {
        lemma_union_members(acc, map[0].1);
        lemma_flatten_members(union_seq(acc, map[0].1), map.skip(1), e);
        if exists|i: int| 0 <= i < map.skip(1).len() && (#[trigger] map.skip(1)[i]).1.contains(e) {
            let i = choose|i: int|
                0 <= i < map.skip(1).len() && (#[trigger] map.skip(1)[i]).1.contains(e);
            assert(map[i + 1].1.contains(e));
        }
        if exists|i: int| 0 <= i < map.len() && (#[trigger] map[i]).1.contains(e) {
            let i = choose|i: int| 0 <= i < map.len() && (#[trigger] map[i]).1.contains(e);
            if i > 0 {
                assert(map.skip(1)[i - 1].1.contains(e));
            }
        }
    }
}

/// In a map in order, an edge of its direction is in some list exactly
/// where the map holds it.
pub proof fn lemma_listed_is_held<EV>(
    map: Seq<(EV, Seq<EdgeDescriptor<EV>>)>,
    dir: EdgeDir,
    e: EdgeDescriptor<EV>,
)
    requires
        map_in_order(map, dir),
    ensures
        (exists|i: int| 0 <= i < map.len() && (#[trigger] map[i]).1.contains(e)) <==> e.dir == dir
            && map_holds(map, e),
{
    lemma_key_index(map, e.edge_type);
    let k = key_index(map, e.edge_type);
    if exists|i: int| 0 <= i < map.len() && (#[trigger] map[i]).1.contains(e) {
        let i = choose|i: int| 0 <= i < map.len() && (#[trigger] map[i]).1.contains(e);
        let j = choose|j: int| 0 <= j < map[i].1.len() && map[i].1[j] == e;
        assert(map[i].1[j].edge_type == map[i].0);
        if k != i {
            assert(crate::collections::seq_model::keys_of(map)[i] == e.edge_type);
            assert(crate::collections::seq_model::keys_of(map)[k] == e.edge_type);
        }
    }
    if e.dir == dir && map_holds(map, e) {
        assert(map[k].1.contains(e));
    }
}

/// All edges of a node in order, put together, are the edges that the node
/// holds.
pub proof fn lemma_all_edges_are_held<EV>(maps: EdgeMaps<EV>, e: EdgeDescriptor<EV>)
    requires
        maps.in_order(),
    ensures
        union_seq(
            flatten_into(Seq::empty(), maps.outgoing),
            flatten_into(Seq::empty(), maps.incoming),
        ).contains(e) <==> maps.holds(e),
{
    lemma_union_members(
        flatten_into(Seq::empty(), maps.outgoing),
        flatten_into(Seq::empty(), maps.incoming),
    );
    lemma_flatten_members(Seq::empty(), maps.outgoing, e);
    lemma_flatten_members(Seq::empty(), maps.incoming, e);
    lemma_listed_is_held(maps.outgoing, EdgeDir::Emit, e);
    lemma_listed_is_held(maps.incoming, EdgeDir::Recv, e);
    assert(!Seq::<EdgeDescriptor<EV>>::empty().contains(e));
}

} // verus!
