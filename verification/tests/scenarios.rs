use routable_graph::blueprint::{
    AddBlueprintEdges, AllowedRenderEdgeSpecifier, BuildBlueprint, FinalizedBlueprint,
};
use routable_graph::collections::VecSet;
use routable_graph::common::{EdgeDescriptor, EdgeDir, EdgeFinder, GraphError};
use routable_graph::graph::reactive_node::build_reactive_node::BuildReactiveNode;
use routable_graph::graph::reactive_node::last_action::{ActionData, LastAction};
use routable_graph::graph::reactive_node::read_reactive_node::ReadReactiveNode;
use routable_graph::graph::view_graph::ViewGraph;
use routable_graph::hooks::{use_routable_store, UseRoutableReturn};
use routable_graph::traversal::traversal_step::TraversalCount;

type Graph = ViewGraph<String, String, String>;
type Store = UseRoutableReturn<String, String, String>;

fn chain_store() -> Store {
    let mut routable = use_routable_store::<String, String, String>(None);
    let blueprint = BuildBlueprint::new()
        .start_with_new_node()
        .set_data("node1".to_string())
        .set_id(1)
        .set_temp_id(1)
        .add_edge_new(EdgeDir::Emit, "edge_type".into(), |n| {
            n.set_id(2).set_data("node2".to_string()).add_edge_new(
                EdgeDir::Emit,
                "edge_type".into(),
                |n| {
                    n.set_id(3).set_data("node3".to_string()).add_edge_new(
                        EdgeDir::Emit,
                        "edge_type".into(),
                        |n| {
                            n.set_id(4).set_data("node4".to_string()).add_edge_new(
                                EdgeDir::Emit,
                                "edge_type".into(),
                                |n| n.set_id(5).set_data("node5".to_string()),
                            )
                        },
                    )
                },
            )
        })
        .blueprint;
    routable.initiate_graph(blueprint, "create".to_string(), 1).unwrap();
    routable
}

fn add_branch(routable: &mut Store) {
    let blueprint = BuildBlueprint::new()
        .start_with_new_node()
        .set_data("node6".to_string())
        .set_id(6)
        .add_edge_existing(EdgeDir::Recv, "edge_type".into(), 3, |existing| existing)
        .add_edge_new(EdgeDir::Emit, "edge_type".into(), |n| {
            n.set_id(7).set_data("node7".to_string())
        })
        .blueprint;
    routable.process_blueprint(blueprint, "branch".to_string()).unwrap();
}

fn existing_node(id: u128, edges: Vec<EdgeDescriptor<String>>) -> ReadReactiveNode<String, String, String> {
    BuildReactiveNode::<String, String, String>::new()
        .id(id)
        .data("existing".into())
        .map_edges_from_bp(&VecSet::from_vec(edges))
        .add_last_action(LastAction {
            action_data: ActionData::new("manual create".to_string()),
            update_info: None,
        })
        .build()
        .0
}

fn link(host: u128, target: u128, dir: EdgeDir, render_info: Option<EdgeDir>) -> EdgeDescriptor<String> {
    EdgeDescriptor::new(host, "edge_type".to_string(), target, render_info, dir)
}

/// (999) -> (998) -> (997), each edge rendering its target.
fn rendered_chain(extra: bool) -> Graph {
    chain_with(if extra { Some("edge_type") } else { None })
}

fn chain_with(extra: Option<&str>) -> Graph {
    let mut graph = ViewGraph::new();
    let mut edges999 = vec![link(999, 998, EdgeDir::Emit, Some(EdgeDir::Emit))];
    let mut edges997 = vec![link(997, 998, EdgeDir::Recv, Some(EdgeDir::Recv))];
    if let Some(edge_type) = extra {
        edges999.push(EdgeDescriptor::new(999, edge_type.to_string(), 997, None, EdgeDir::Emit));
        edges997.push(EdgeDescriptor::new(997, edge_type.to_string(), 999, None, EdgeDir::Recv));
    }
    graph.nodes.insert(999, existing_node(999, edges999));
    graph.nodes.insert(
        998,
        existing_node(
            998,
            vec![
                link(998, 999, EdgeDir::Recv, Some(EdgeDir::Recv)),
                link(998, 997, EdgeDir::Emit, Some(EdgeDir::Emit)),
            ],
        ),
    );
    graph.nodes.insert(997, existing_node(997, edges997));
    graph
}

fn all_edges(graph: &Graph, id: u128) -> Vec<EdgeDescriptor<String>> {
    graph.get_node(&id).unwrap().convert_all_edges_to_hashset().to_vec()
}

fn ids(graph: &Graph) -> Vec<u128> {
    let mut ids = Vec::new();
    for i in 0..graph.nodes.len() {
        ids.push(*graph.nodes.key_at(i));
    }
    ids.sort();
    ids
}

fn assert_symmetric(graph: &Graph) {
    for id in ids(graph) {
        for e in all_edges(graph, id) {
            assert_eq!(e.host, id);
            let target = graph.get_node(&e.target).expect("the target of an edge is a node");
            assert!(
                target.convert_all_edges_to_hashset().contains(&e.invert()),
                "edge {:?} has no mirror",
                e
            );
        }
    }
}

fn render_parents(graph: &Graph, id: u128) -> Vec<u128> {
    all_edges(graph, id)
        .into_iter()
        .filter(|e| e.render_info == Some(EdgeDir::Recv))
        .map(|e| e.target)
        .collect()
}

fn snapshot(graph: &Graph) -> Vec<(u128, String, Vec<String>, Vec<String>)> {
    ids(graph)
        .into_iter()
        .map(|id| {
            let node = graph.get_node(&id).unwrap();
            let mut labels = node.labels.to_vec();
            labels.sort();
            let mut edges: Vec<String> =
                all_edges(graph, id).iter().map(|e| format!("{:?}", e)).collect();
            edges.sort();
            (id, node.data.clone(), labels, edges)
        })
        .collect()
}

fn apply(graph: &mut Graph, blueprint: FinalizedBlueprint<String, String>) {
    graph.apply(blueprint, ActionData::new("apply".to_string())).unwrap();
}

#[test]
fn a_chain_of_new_nodes_is_committed_with_its_render_edges() {
    let routable = chain_store();
    assert_eq!(ids(&routable.graph), vec![1, 2, 3, 4, 5]);
    assert_symmetric(&routable.graph);
    assert_eq!(render_parents(&routable.graph, 1), Vec::<u128>::new());
    for id in 2..=5u128 {
        assert_eq!(render_parents(&routable.graph, id), vec![id - 1]);
        let parent = routable.get_node(id - 1).unwrap();
        assert!(parent
            .search_for_edge(
                &EdgeFinder::new()
                    .target(id)
                    .dir(EdgeDir::Emit)
                    .edge_type("edge_type".to_string())
                    .render_info(Some(EdgeDir::Emit))
            )
            .is_some());
    }
    assert_eq!(all_edges(&routable.graph, 5).len(), 1);
    assert_eq!(all_edges(&routable.graph, 3).len(), 2);
    assert_eq!(routable.get_node(2).unwrap().data, "node2");
    assert_eq!(routable.history.history.undo_stack.len(), 1);
    assert!(!routable.graph_lock.is_locked);
}

#[test]
fn a_branch_attached_to_the_chain_is_found_by_a_traversal() {
    let mut routable = chain_store();
    add_branch(&mut routable);
    assert_eq!(ids(&routable.graph), vec![1, 2, 3, 4, 5, 6, 7]);
    assert_symmetric(&routable.graph);
    assert_eq!(
        routable
            .get_node(3)
            .unwrap()
            .outgoing_edges
            .get(&"edge_type".to_string())
            .unwrap()
            .len(),
        2
    );
    assert_eq!(render_parents(&routable.graph, 6), vec![3]);
    assert_eq!(render_parents(&routable.graph, 7), vec![6]);

    let found = routable
        .execute(&routable.traverse_search(1).add_step(
            EdgeFinder::new().dir(EdgeDir::Emit).edge_type("edge_type".into()).match_all(),
            TraversalCount::Exactly(3),
        ))
        .unwrap();
    let mut endpoints: Vec<u128> =
        found.step_results[0][0].endpoints.iter().map(|n| n.node.id).collect();
    endpoints.sort();
    assert_eq!(endpoints, vec![4, 6]);
}

#[test]
fn deleting_a_render_parent_deletes_what_only_it_rendered() {
    let graph = rendered_chain(false);
    let mut blueprint = BuildBlueprint::<String, String>::new();
    blueprint.delete_node(998);
    let sealed = blueprint.finalize(&graph, None, None).unwrap();
    assert!(sealed.delete_nodes.get(&998).is_some());
    assert!(sealed.delete_nodes.get(&997).is_some());
    assert!(sealed.delete_nodes.get(&999).is_none());
    assert_eq!(sealed.delete_nodes.len(), 2);
    assert_eq!(sealed.delete_nodes.get(&998).unwrap().remove_edges.len(), 2);

    let mut graph = graph;
    apply(&mut graph, sealed);
    assert_eq!(ids(&graph), vec![999]);
    assert!(all_edges(&graph, 999).is_empty());
    assert_symmetric(&graph);
}

#[test]
fn a_displaced_node_with_another_way_in_is_kept_and_rendered_through_it() {
    let graph = rendered_chain(true);
    assert_symmetric(&graph);
    let mut blueprint = BuildBlueprint::<String, String>::new();
    blueprint.delete_node(998);
    let sealed = blueprint.finalize(&graph, None, None).unwrap();
    assert!(sealed.delete_nodes.get(&998).is_some());
    assert!(sealed.delete_nodes.get(&997).is_none());

    let mut graph = graph;
    apply(&mut graph, sealed);
    assert_eq!(ids(&graph), vec![997, 999]);
    assert_eq!(render_parents(&graph, 997), vec![999]);
    assert!(graph
        .get_node(&999)
        .unwrap()
        .search_for_edge(&EdgeFinder::new().target(997).render_info(Some(EdgeDir::Emit)))
        .is_some());
    assert_symmetric(&graph);
}

#[test]
fn two_displaced_nodes_are_rendered_through_the_same_host() {
    // (1) renders (2); (2) renders (3) and (4); (1) also leads to (3) and (4).
    let mut graph: Graph = ViewGraph::new();
    graph.nodes.insert(
        1,
        existing_node(
            1,
            vec![
                link(1, 2, EdgeDir::Emit, Some(EdgeDir::Emit)),
                link(1, 3, EdgeDir::Emit, None),
                link(1, 4, EdgeDir::Emit, None),
            ],
        ),
    );
    graph.nodes.insert(
        2,
        existing_node(
            2,
            vec![
                link(2, 1, EdgeDir::Recv, Some(EdgeDir::Recv)),
                link(2, 3, EdgeDir::Emit, Some(EdgeDir::Emit)),
                link(2, 4, EdgeDir::Emit, Some(EdgeDir::Emit)),
            ],
        ),
    );
    for child in [3, 4] {
        graph.nodes.insert(
            child,
            existing_node(
                child,
                vec![
                    link(child, 2, EdgeDir::Recv, Some(EdgeDir::Recv)),
                    link(child, 1, EdgeDir::Recv, None),
                ],
            ),
        );
    }
    assert_symmetric(&graph);

    let mut blueprint = BuildBlueprint::<String, String>::new();
    blueprint.delete_node(2);
    let sealed = blueprint.finalize(&graph, None, None).unwrap();
    apply(&mut graph, sealed);

    assert_eq!(ids(&graph), vec![1, 3, 4]);
    assert_eq!(render_parents(&graph, 3), vec![1]);
    assert_eq!(render_parents(&graph, 4), vec![1]);
    let mut held = all_edges(&graph, 1);
    held.sort_by_key(|e| e.target);
    assert_eq!(
        held,
        vec![
            link(1, 3, EdgeDir::Emit, Some(EdgeDir::Emit)),
            link(1, 4, EdgeDir::Emit, Some(EdgeDir::Emit)),
        ]
    );
    assert_symmetric(&graph);
}

#[test]
fn a_displaced_node_is_kept_only_through_an_edge_that_may_render() {
    let only_edge_type = || {
        Some(vec![AllowedRenderEdgeSpecifier {
            edge_type: "edge_type".to_string(),
            dir: EdgeDir::Emit,
        }])
    };
    let graph = chain_with(Some("other"));
    let mut blueprint = BuildBlueprint::<String, String>::new();
    blueprint.delete_node(998);
    let sealed = blueprint.finalize(&graph, only_edge_type(), None).unwrap();
    assert!(sealed.delete_nodes.get(&998).is_some());
    assert!(sealed.delete_nodes.get(&997).is_some());

    let graph = chain_with(Some("edge_type"));
    let mut blueprint = BuildBlueprint::<String, String>::new();
    blueprint.delete_node(998);
    let sealed = blueprint.finalize(&graph, only_edge_type(), None).unwrap();
    assert!(sealed.delete_nodes.get(&998).is_some());
    assert!(sealed.delete_nodes.get(&997).is_none());

    let graph = chain_with(Some("other"));
    let mut blueprint = BuildBlueprint::<String, String>::new();
    blueprint.delete_node(998);
    let sealed = blueprint.finalize(&graph, None, None).unwrap();
    assert!(sealed.delete_nodes.get(&997).is_none());
}

#[test]
fn a_preferred_edge_type_renders_before_a_later_one() {
    let graph = Graph::new();
    let blueprint = BuildBlueprint::<String, String>::new()
        .start_with_new_node()
        .set_id(1)
        .set_temp_id(1)
        .add_edge_new(EdgeDir::Emit, "plain".into(), |n| n.set_id(2).set_temp_id(2))
        .add_edge_temp(EdgeDir::Emit, "preferred".into(), 2)
        .blueprint;
    let sealed = blueprint
        .finalize(
            &graph,
            Some(vec![
                AllowedRenderEdgeSpecifier { edge_type: "preferred".to_string(), dir: EdgeDir::Emit },
                AllowedRenderEdgeSpecifier { edge_type: "plain".to_string(), dir: EdgeDir::Emit },
            ]),
            Some(1),
        )
        .unwrap();
    let child = sealed.new_nodes.get(&2).unwrap();
    let render = child.get_render_edge().unwrap();
    assert_eq!(render.edge_type, "preferred");
    assert_eq!(render.target, 1);
    assert_eq!(
        child
            .find_edges(&EdgeFinder::new().render_info(Some(EdgeDir::Recv)).match_all())
            .len(),
        1
    );
}

#[test]
fn an_alias_is_resolved_to_the_node_behind_it() {
    let mut routable = use_routable_store::<String, String, String>(None);
    let blueprint = BuildBlueprint::new()
        .start_with_new_node()
        .set_id(1)
        .set_temp_id(100)
        .add_edge_new(EdgeDir::Emit, "edge_type".into(), |n| {
            n.set_id(2).set_temp_id(200).add_edge_temp(EdgeDir::Emit, "back".into(), 100)
        })
        .blueprint;
    let aliases = routable.initiate_graph(blueprint, "create".to_string(), 100).unwrap();
    assert_eq!(aliases.get(&100), Some(&1));
    assert_eq!(aliases.get(&200), Some(&2));
    assert_eq!(aliases.len(), 2);
    assert!(routable
        .get_node(2)
        .unwrap()
        .search_for_edge(&EdgeFinder::new().target(1).edge_type("back".to_string()).dir(EdgeDir::Emit))
        .is_some());
    assert!(routable
        .get_node(1)
        .unwrap()
        .search_for_edge(&EdgeFinder::new().target(2).edge_type("back".to_string()).dir(EdgeDir::Recv))
        .is_some());
    assert_symmetric(&routable.graph);
}

#[test]
fn a_failed_transaction_leaves_the_store_as_it_was() {
    let mut routable = chain_store();
    let before = snapshot(&routable.graph);
    let blueprint = BuildBlueprint::new()
        .start_with_new_node()
        .set_id(50)
        .add_edge_existing(EdgeDir::Recv, "edge_type".into(), 1, |existing| {
            existing.update_data("changed".to_string())
        })
        .blueprint
        .start_with_new_node()
        .set_id(51)
        .blueprint;
    let error = routable.process_blueprint(blueprint, "fail".to_string()).unwrap_err();
    assert_eq!(
        error,
        GraphError::Blueprint(
            "could not find render edges for all new nodes\nNode ID: 51".to_string()
        )
    );
    assert_eq!(snapshot(&routable.graph), before);
    assert_eq!(routable.history.history.undo_stack.len(), 1);
    assert!(routable.get_node(50).is_err());

    let blueprint = BuildBlueprint::new()
        .start_with_update_node(77)
        .add_label("nowhere".to_string())
        .blueprint;
    let error = routable.process_blueprint(blueprint, "fail".to_string()).unwrap_err();
    assert_eq!(
        error,
        GraphError::Blueprint("Update Node: Failed to find node, ID: 77".to_string())
    );
    assert_eq!(snapshot(&routable.graph), before);
}

#[test]
fn undoing_a_transaction_restores_the_graph_and_redoing_repeats_it() {
    let mut routable = chain_store();
    let before = snapshot(&routable.graph);
    let blueprint = BuildBlueprint::new()
        .start_with_update_node(2)
        .update_data("two".to_string())
        .add_label("seen".to_string())
        .add_edge_new(EdgeDir::Emit, "other".into(), |n| n.set_id(20).add_label("leaf".to_string()))
        .blueprint;
    routable.process_blueprint(blueprint, "change".to_string()).unwrap();
    let after = snapshot(&routable.graph);
    assert_ne!(before, after);
    assert_eq!(routable.get_node(2).unwrap().data, "two");
    assert_eq!(routable.get_node(2).unwrap().labels.to_vec(), vec!["seen".to_string()]);
    assert_eq!(routable.graph.label_map.get(&"leaf".to_string()).unwrap().to_vec(), vec![20]);
    assert_symmetric(&routable.graph);

    {
        let UseRoutableReturn { graph, history, .. } = &mut routable;
        history.undo(graph, "undo".to_string()).unwrap();
    }
    assert_eq!(snapshot(&routable.graph), before);
    assert_eq!(routable.history.history.undo_stack.len(), 1);
    assert_eq!(routable.history.history.redo_stack.len(), 1);
    let last = &routable.get_node(2).unwrap().last_action.action_data;
    assert_eq!(last.main_action, "undo");
    assert_eq!(last.secondary_action, Some("change".to_string()));

    {
        let UseRoutableReturn { graph, history, .. } = &mut routable;
        history.redo(graph, "redo".to_string()).unwrap();
    }
    assert_eq!(snapshot(&routable.graph), after);
    assert_eq!(routable.history.history.undo_stack.len(), 2);
    assert_eq!(routable.history.history.redo_stack.len(), 0);

    {
        let UseRoutableReturn { graph, history, .. } = &mut routable;
        history.undo(graph, "undo".to_string()).unwrap();
        history.undo(graph, "undo".to_string()).unwrap();
        assert!(ids(graph).is_empty());
        history.undo(graph, "undo".to_string()).unwrap();
        assert!(ids(graph).is_empty());
        assert_eq!(history.history.redo_stack.len(), 2);
    }
}

#[test]
fn undoing_the_addition_of_a_label_that_was_there_takes_the_label_away() {
    let mut routable = chain_store();
    let label = BuildBlueprint::new()
        .start_with_update_node(2)
        .add_label("seen".to_string())
        .blueprint;
    routable.process_blueprint(label, "label".to_string()).unwrap();
    let before = snapshot(&routable.graph);
    let again = BuildBlueprint::new()
        .start_with_update_node(2)
        .add_label("seen".to_string())
        .blueprint;
    routable.process_blueprint(again, "label again".to_string()).unwrap();
    assert_eq!(snapshot(&routable.graph), before);

    {
        let UseRoutableReturn { graph, history, .. } = &mut routable;
        history.undo(graph, "undo".to_string()).unwrap();
    }
    assert_ne!(snapshot(&routable.graph), before);
    assert!(routable.get_node(2).unwrap().labels.is_empty());
}

#[test]
fn a_node_displaced_with_its_render_parent_ends_with_one_render_edge() {
    // (1) renders (2), (2) renders (3), (3) renders (4); (1) also leads to
    // (3) and to (4).
    let mut graph: Graph = ViewGraph::new();
    let typed = |host: u128, edge_type: &str, target: u128, dir: EdgeDir, render: Option<EdgeDir>| {
        EdgeDescriptor::new(host, edge_type.to_string(), target, render, dir)
    };
    graph.nodes.insert(
        1,
        existing_node(
            1,
            vec![
                typed(1, "b", 2, EdgeDir::Emit, Some(EdgeDir::Emit)),
                typed(1, "b", 4, EdgeDir::Emit, None),
                typed(1, "a", 3, EdgeDir::Emit, None),
            ],
        ),
    );
    graph.nodes.insert(
        2,
        existing_node(
            2,
            vec![
                typed(2, "b", 1, EdgeDir::Recv, Some(EdgeDir::Recv)),
                typed(2, "b", 3, EdgeDir::Emit, Some(EdgeDir::Emit)),
            ],
        ),
    );
    graph.nodes.insert(
        3,
        existing_node(
            3,
            vec![
                typed(3, "b", 2, EdgeDir::Recv, Some(EdgeDir::Recv)),
                typed(3, "a", 1, EdgeDir::Recv, None),
                typed(3, "b", 4, EdgeDir::Emit, Some(EdgeDir::Emit)),
            ],
        ),
    );
    graph.nodes.insert(
        4,
        existing_node(
            4,
            vec![
                typed(4, "b", 3, EdgeDir::Recv, Some(EdgeDir::Recv)),
                typed(4, "b", 1, EdgeDir::Recv, None),
            ],
        ),
    );
    assert_symmetric(&graph);

    let mut blueprint = BuildBlueprint::<String, String>::new();
    blueprint.delete_node(2);
    let sealed = blueprint.finalize(&graph, None, None).unwrap();
    apply(&mut graph, sealed);

    assert_eq!(ids(&graph), vec![1, 3, 4]);
    assert_eq!(render_parents(&graph, 3), vec![1]);
    assert_eq!(render_parents(&graph, 4), vec![1]);
    // The edge through which (3) rendered (4) stays, without its mark.
    assert!(all_edges(&graph, 3).contains(&typed(3, "b", 4, EdgeDir::Emit, None)));
    assert!(all_edges(&graph, 4).contains(&typed(4, "b", 3, EdgeDir::Recv, None)));
    assert_eq!(all_edges(&graph, 4).len(), 2);
    assert_symmetric(&graph);
}

#[test]
fn a_released_edge_goes_with_its_former_parent() {
    // (1) renders (2), (2) renders (3), (3) renders (4); (1) also leads to
    // (4), and nothing else leads to (3).
    let mut graph: Graph = ViewGraph::new();
    let typed = |host: u128, target: u128, dir: EdgeDir, render: Option<EdgeDir>| {
        EdgeDescriptor::new(host, "edge_type".to_string(), target, render, dir)
    };
    graph.nodes.insert(
        1,
        existing_node(
            1,
            vec![
                typed(1, 2, EdgeDir::Emit, Some(EdgeDir::Emit)),
                typed(1, 4, EdgeDir::Emit, None),
            ],
        ),
    );
    graph.nodes.insert(
        2,
        existing_node(
            2,
            vec![
                typed(2, 1, EdgeDir::Recv, Some(EdgeDir::Recv)),
                typed(2, 3, EdgeDir::Emit, Some(EdgeDir::Emit)),
            ],
        ),
    );
    graph.nodes.insert(
        3,
        existing_node(
            3,
            vec![
                typed(3, 2, EdgeDir::Recv, Some(EdgeDir::Recv)),
                typed(3, 4, EdgeDir::Emit, Some(EdgeDir::Emit)),
            ],
        ),
    );
    graph.nodes.insert(
        4,
        existing_node(
            4,
            vec![
                typed(4, 3, EdgeDir::Recv, Some(EdgeDir::Recv)),
                typed(4, 1, EdgeDir::Recv, None),
            ],
        ),
    );
    assert_symmetric(&graph);

    let mut blueprint = BuildBlueprint::<String, String>::new();
    blueprint.delete_node(2);
    let sealed = blueprint.finalize(&graph, None, None).unwrap();
    apply(&mut graph, sealed);

    assert_eq!(ids(&graph), vec![1, 4]);
    assert_eq!(render_parents(&graph, 4), vec![1]);
    assert_eq!(all_edges(&graph, 4), vec![typed(4, 1, EdgeDir::Recv, Some(EdgeDir::Recv))]);
    assert_symmetric(&graph);
}

#[test]
fn new_nodes_get_one_render_edge_beside_the_deletion_of_a_leaf() {
    let mut graph = rendered_chain(false);
    let mut blueprint = BuildBlueprint::<String, String>::new()
        .start_with_update_node(999)
        .add_edge_new(EdgeDir::Emit, "edge_type".into(), |n| {
            n.set_id(1).add_edge_new(EdgeDir::Emit, "edge_type".into(), |n| n.set_id(2))
        })
        .blueprint;
    blueprint.delete_node(997);
    let sealed = blueprint.finalize(&graph, None, None).unwrap();
    for id in [1u128, 2] {
        let parents: Vec<u128> = sealed
            .new_nodes
            .get(&id)
            .unwrap()
            .add_edges
            .to_vec()
            .into_iter()
            .filter(|e| e.render_info == Some(EdgeDir::Recv))
            .map(|e| e.target)
            .collect();
        assert_eq!(parents, vec![if id == 1 { 999 } else { 1 }]);
    }
    apply(&mut graph, sealed);
    assert_eq!(ids(&graph), vec![1, 2, 998, 999]);
    assert_eq!(render_parents(&graph, 1), vec![999]);
    assert_eq!(render_parents(&graph, 2), vec![1]);
    assert_symmetric(&graph);
}

#[test]
fn an_alias_follows_the_node_to_its_new_identifier() {
    let mut routable = use_routable_store::<String, String, String>(None);
    let blueprint = BuildBlueprint::new()
        .start_with_new_node()
        .set_data("root".to_string())
        .set_temp_id(7)
        .set_id(5)
        .blueprint;
    let aliases = routable.initiate_graph(blueprint, "create".to_string(), 7).unwrap();
    assert_eq!(aliases.get(&7), Some(&5));
    assert_eq!(routable.get_node(5).unwrap().data, "root");
    assert!(render_parents(&routable.graph, 5).is_empty());
}

#[test]
fn a_new_node_behind_a_displaced_node_that_is_lost_is_an_error() {
    // (999) renders (998), (998) renders (997). The transaction removes
    // the edge from (999) to (998) and attaches a new node to (998).
    let graph = rendered_chain(false);
    let blueprint = BuildBlueprint::<String, String>::new()
        .start_with_update_node(999)
        .remove_edge(EdgeFinder::new().target(998))
        .blueprint
        .start_with_new_node()
        .set_id(1)
        .add_edge_existing(EdgeDir::Recv, "edge_type".into(), 998, |n| n)
        .blueprint;
    let errors = blueprint.finalize(&graph, None, None).unwrap_err();
    assert_eq!(errors.len(), 1);
    assert_eq!(
        errors[0].to_text(),
        "Blueprint Error: could not find render edges for all new nodes\nNode ID: 1"
    );
}

#[test]
fn a_new_node_behind_a_displaced_node_that_is_kept_is_rendered_through_it() {
    // As above, but (999) keeps another edge to (998).
    let mut graph = chain_with(None);
    let extra = EdgeDescriptor::new(999, "other".to_string(), 998, None, EdgeDir::Emit);
    let mut edges999 = all_edges(&graph, 999);
    edges999.push(extra.clone());
    let mut edges998 = all_edges(&graph, 998);
    edges998.push(extra.invert());
    graph.nodes.insert(999, existing_node(999, edges999));
    graph.nodes.insert(998, existing_node(998, edges998));
    assert_symmetric(&graph);
    let blueprint = BuildBlueprint::<String, String>::new()
        .start_with_update_node(999)
        .remove_edge(EdgeFinder::new().target(998).edge_type("edge_type".to_string()))
        .blueprint
        .start_with_new_node()
        .set_id(1)
        .add_edge_existing(EdgeDir::Recv, "edge_type".into(), 998, |n| n)
        .blueprint;
    let sealed = blueprint.finalize(&graph, None, None).unwrap();
    apply(&mut graph, sealed);
    assert_eq!(ids(&graph), vec![1, 997, 998, 999]);
    assert_eq!(render_parents(&graph, 998), vec![999]);
    assert_eq!(render_parents(&graph, 997), vec![998]);
    assert_eq!(render_parents(&graph, 1), vec![998]);
    assert_symmetric(&graph);
}

#[test]
fn a_removed_render_edge_is_taken_up_again_through_an_edge_beside_it() {
    // (1) renders (2), and holds the same edge without render mark too.
    let mut graph: Graph = ViewGraph::new();
    graph.nodes.insert(
        1,
        existing_node(
            1,
            vec![
                link(1, 2, EdgeDir::Emit, Some(EdgeDir::Emit)),
                link(1, 2, EdgeDir::Emit, None),
            ],
        ),
    );
    graph.nodes.insert(
        2,
        existing_node(
            2,
            vec![
                link(2, 1, EdgeDir::Recv, Some(EdgeDir::Recv)),
                link(2, 1, EdgeDir::Recv, None),
            ],
        ),
    );
    assert_symmetric(&graph);
    let blueprint = BuildBlueprint::<String, String>::new()
        .start_with_update_node(1)
        .remove_edge(EdgeFinder::new().target(2).render_info(Some(EdgeDir::Emit)))
        .blueprint;
    let sealed = blueprint.finalize(&graph, None, None).unwrap();
    apply(&mut graph, sealed);
    assert_eq!(ids(&graph), vec![1, 2]);
    assert_eq!(render_parents(&graph, 2), vec![1]);
    assert_eq!(all_edges(&graph, 1), vec![link(1, 2, EdgeDir::Emit, Some(EdgeDir::Emit))]);
    assert_symmetric(&graph);
}

#[test]
fn every_structural_error_is_reported_at_once() {
    let graph = rendered_chain(false);
    let mut blueprint = BuildBlueprint::<String, String>::new()
        .start_with_update_node(999)
        .remove_edge(EdgeFinder::new().target(5))
        .add_edge_temp(EdgeDir::Emit, "edge_type".into(), 4242)
        .blueprint;
    blueprint.delete_node(12);
    let errors = blueprint.finalize(&graph, None, Some(31)).unwrap_err();
    let texts: Vec<String> = errors.iter().map(|e| e.to_text()).collect();
    assert_eq!(
        texts,
        vec![
            "Blueprint Error: update_temp_ids: temp id not found in temp_id_map\nTemp Id: 4242".to_string(),
            "Blueprint Error: delete_node: node not found, ID: 12".to_string(),
            "Blueprint Error: remove_edge: edge not found\nHost ID: 999".to_string(),
            "Blueprint Error: set_render_edges: entry_point_temp_id not found in temp_id_map\nTemp Id: 31".to_string(),
        ]
    );
}

#[test]
fn a_root_must_be_staged_and_without_render_edge() {
    let graph = Graph::new();
    let mut blueprint = BuildBlueprint::<String, String>::new();
    blueprint.alias(Some(1), 5);
    let errors = blueprint.finalize(&graph, None, Some(1)).unwrap_err();
    assert_eq!(
        errors,
        vec![GraphError::Blueprint(
            "set_render_edges: entry_point is not a node of this blueprint\nNode Id: 5".to_string()
        )]
    );

    let mut blueprint = BuildBlueprint::<String, String>::new();
    let mut node = routable_graph::blueprint::new_node::NewNode::<String, String>::new().set_id(5);
    node.temp_id = Some(1);
    node.add_edges.insert(link(5, 6, EdgeDir::Recv, Some(EdgeDir::Recv)));
    blueprint.alias(Some(1), 5);
    blueprint.add_node(node);
    let errors = blueprint.finalize(&graph, None, Some(1)).unwrap_err();
    assert_eq!(
        errors,
        vec![GraphError::Blueprint(
            "set_render_edges: entry_point cannot have a render edge\nNode Id: 5".to_string()
        )]
    );

    let blueprint = BuildBlueprint::<String, String>::new()
        .start_with_update_node(3)
        .update_data("x".to_string())
        .blueprint;
    let errors = blueprint.finalize(&graph, None, None).unwrap_err();
    assert_eq!(
        errors,
        vec![GraphError::Blueprint("update_node: node not found, ID: 3".to_string())]
    );
}

#[test]
fn the_store_reports_what_it_cannot_find() {
    let mut graph = rendered_chain(false);
    assert_eq!(
        graph.get_node(&5).unwrap_err(),
        GraphError::Blueprint("Use Routable: Failed to find node, ID: 5".to_string())
    );
    assert_eq!(
        graph.delete_node(5).unwrap_err(),
        GraphError::Blueprint("Delete Node: Failed to find node, ID: 5".to_string())
    );
    let update = routable_graph::blueprint::finalized_update_node::FinalizedUpdateNode {
        id: 997,
        replacement_data: None,
        add_labels: Some(VecSet::from_vec(vec!["late".to_string()])),
        remove_labels: None,
        add_edges: None,
        remove_edges: None,
    };
    graph.update_node(update, ActionData::new("label".to_string())).unwrap();
    let before = ids(&graph);
    assert_eq!(
        graph.delete_node(997).unwrap_err(),
        GraphError::Blueprint("Delete Node: Failed to find label, Label: late".to_string())
    );
    assert_eq!(ids(&graph), before);
    graph.delete_node(998).unwrap();
    assert_eq!(ids(&graph), vec![997, 999]);
}
