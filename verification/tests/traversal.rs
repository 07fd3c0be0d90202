use routable_graph::blueprint::{AddBlueprintEdges, BuildBlueprint};
use routable_graph::common::{EdgeDir, EdgeFinder};
use routable_graph::hooks::{use_routable_store, UseRoutableReturn};
use routable_graph::traversal::traversal_descriptor::TraversalDescriptor;
use routable_graph::traversal::traversal_result::TraversalResult;
use routable_graph::traversal::traversal_step::TraversalCount;

type Store = UseRoutableReturn<String, String, String>;

fn chain_store() -> Store {
    let mut routable = use_routable_store::<String, String, String>(None);
    let blueprint = BuildBlueprint::new()
        .start_with_new_node()
        .set_id(1)
        .set_temp_id(1)
        .add_edge_new(EdgeDir::Emit, "edge_type".into(), |n| {
            n.set_id(2).add_edge_new(EdgeDir::Emit, "edge_type".into(), |n| {
                n.set_id(3).add_edge_new(EdgeDir::Emit, "edge_type".into(), |n| {
                    n.set_id(4)
                        .add_edge_new(EdgeDir::Emit, "edge_type".into(), |n| n.set_id(5))
                })
            })
        })
        .blueprint;
    routable.initiate_graph(blueprint, "create".to_string(), 1).unwrap();
    routable
}

fn forward() -> EdgeFinder<String> {
    EdgeFinder::new().dir(EdgeDir::Emit).edge_type("edge_type".to_string()).match_all()
}

fn endpoints(result: &TraversalResult<String, String, String>, step: usize) -> Vec<(u128, usize, usize)> {
    let mut found = Vec::new();
    for item in result.step_results[step].iter() {
        for node in item.endpoints.iter() {
            found.push((node.node.id, node.step_index, node.traversal_index));
        }
    }
    found
}

#[test]
fn an_exact_count_ends_at_that_depth_only() {
    let routable = chain_store();
    let found = routable
        .execute(&routable.traverse_search(1).add_step(forward(), TraversalCount::Exactly(2)))
        .unwrap();
    assert_eq!(endpoints(&found, 0), vec![(3, 2, 2)]);
    let entry = &found.step_results[0][0].entry;
    assert_eq!(entry.node.id, 1);
    assert_eq!(entry.downstream_edges.len(), 1);
    assert_eq!(entry.downstream_edges[0].target(), 2);
    assert_eq!(entry.downstream_edges[0].edge().host, 1);
    let end = &found.step_results[0][0].endpoints[0];
    let upstream = end.upstream_edge.as_ref().unwrap();
    assert_eq!(upstream.edge.host, 2);
    assert_eq!(upstream.edge.target, 3);
    assert_eq!(upstream.step_index, 1);
    assert_eq!(upstream.traversal_index, 1);
}

#[test]
fn an_inclusive_lower_bound_ends_at_every_depth_from_there() {
    let routable = chain_store();
    let found = routable
        .execute(
            &routable.traverse_search(1).add_step(forward(), TraversalCount::AtLeastInclusive(1)),
        )
        .unwrap();
    assert_eq!(endpoints(&found, 0), vec![(2, 1, 1), (3, 2, 2), (4, 3, 3), (5, 4, 4)]);
    let found = routable
        .execute(
            &routable.traverse_search(1).add_step(forward(), TraversalCount::AtLeastInclusive(0)),
        )
        .unwrap();
    assert_eq!(endpoints(&found, 0).len(), 5);
    assert_eq!(endpoints(&found, 0)[0], (1, 0, 0));
}

#[test]
fn an_exclusive_bound_ends_where_the_chain_or_the_count_ends() {
    let routable = chain_store();
    let found = routable
        .execute(
            &routable.traverse_search(1).add_step(forward(), TraversalCount::AtLeastExclusive(1)),
        )
        .unwrap();
    assert_eq!(endpoints(&found, 0), vec![(5, 4, 4)]);
    let found = routable
        .execute(
            &routable
                .traverse_search(1)
                .add_step(forward(), TraversalCount::BetweenExclusive(1, 3)),
        )
        .unwrap();
    assert_eq!(endpoints(&found, 0), vec![(4, 3, 3)]);
    let found = routable
        .execute(
            &routable
                .traverse_search(1)
                .add_step(forward(), TraversalCount::BetweenInclusive(2, 3)),
        )
        .unwrap();
    assert_eq!(endpoints(&found, 0), vec![(3, 2, 2), (4, 3, 3)]);
}

#[test]
fn a_step_that_cannot_be_taken_gives_no_result() {
    let routable = chain_store();
    assert!(routable
        .execute(&routable.traverse_search(1).add_step(forward(), TraversalCount::Exactly(5)))
        .is_none());
    assert!(routable
        .execute(&routable.traverse_search(5).add_step(forward(), TraversalCount::AtLeastInclusive(1)))
        .is_none());
    assert!(routable
        .execute(&routable.traverse_search(77).add_step(forward(), TraversalCount::Exactly(0)))
        .is_none());
    assert!(routable
        .execute(
            &routable
                .traverse_search(1)
                .add_step(forward(), TraversalCount::AtLeastInclusive(1))
                .add_step(
                    EdgeFinder::new().edge_type("missing".to_string()),
                    TraversalCount::Exactly(1)
                )
        )
        .is_none());
}

#[test]
fn a_query_without_steps_finds_nothing_and_succeeds() {
    let routable = chain_store();
    let found = TraversalDescriptor::<String>::new(1).execute(&routable.graph).unwrap();
    assert!(found.step_results.is_empty());
    let empty = TraversalResult::<String, String, String>::new(3);
    assert_eq!(empty.step_results.len(), 3);
    assert!(empty.step_results.iter().all(|s| s.is_empty()));
}

#[test]
fn later_steps_start_where_earlier_steps_ended() {
    let routable = chain_store();
    let found = routable
        .execute(
            &routable
                .traverse_search(1)
                .add_step(forward(), TraversalCount::Exactly(2))
                .add_step(
                    EdgeFinder::new().dir(EdgeDir::Recv).edge_type("edge_type".to_string()),
                    TraversalCount::Exactly(1),
                ),
        )
        .unwrap();
    assert_eq!(found.step_results.len(), 2);
    assert_eq!(endpoints(&found, 0), vec![(3, 2, 2)]);
    assert_eq!(found.step_results[1].len(), 1);
    assert_eq!(found.step_results[1][0].entry.node.id, 3);
    assert_eq!(endpoints(&found, 1), vec![(2, 1, 3)]);
}

#[test]
fn a_step_does_not_enter_a_node_twice_on_one_path() {
    let mut routable = use_routable_store::<String, String, String>(None);
    let blueprint = BuildBlueprint::new()
        .start_with_new_node()
        .set_id(1)
        .set_temp_id(1)
        .add_edge_new(EdgeDir::Emit, "edge_type".into(), |n| {
            n.set_id(2).add_edge_temp(EdgeDir::Emit, "edge_type".into(), 1)
        })
        .blueprint;
    routable.initiate_graph(blueprint, "create".to_string(), 1).unwrap();
    let found = routable
        .execute(
            &routable.traverse_search(1).add_step(forward(), TraversalCount::AtLeastInclusive(1)),
        )
        .unwrap();
    assert_eq!(endpoints(&found, 0), vec![(2, 1, 1)]);
    let found = routable
        .execute(
            &routable.traverse_search(1).add_step(forward(), TraversalCount::AtLeastExclusive(1)),
        )
        .unwrap();
    assert_eq!(endpoints(&found, 0), vec![(2, 1, 1)]);
    assert!(routable
        .execute(&routable.traverse_search(1).add_step(forward(), TraversalCount::Exactly(2)))
        .is_none());
}
