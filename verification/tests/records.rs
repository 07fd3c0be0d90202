use routable_graph::blueprint::delete_node::DeleteNode;
use routable_graph::blueprint::finalized_update_node::{
    FinalizedUpdateNode, UpdateNodeReplacementData,
};
use routable_graph::blueprint::new_node::NewNode;
use routable_graph::blueprint::update_node::UpdateNode;
use routable_graph::blueprint::FinalizedBlueprint;
use routable_graph::collections::{VecMap, VecSet};
use routable_graph::common::{EdgeDescriptor, EdgeDir, EdgeFinder, GraphError};

fn edge(host: u128, target: u128, render_info: Option<EdgeDir>) -> EdgeDescriptor<String> {
    EdgeDescriptor::new(host, "kind".to_string(), target, render_info, EdgeDir::Emit)
}

fn new_node(id: u128, data: &str, labels: &[&str], edges: Vec<EdgeDescriptor<String>>) -> NewNode<String, String> {
    NewNode {
        id,
        temp_id: None,
        data: data.to_string(),
        add_labels: VecSet::from_vec(labels.iter().map(|l| l.to_string()).collect()),
        add_edges: VecSet::from_vec(edges),
    }
}

fn sorted<X: Ord + Clone>(items: Vec<X>) -> Vec<X> {
    let mut items = items;
    items.sort();
    items
}

#[test]
fn fresh_records_are_blank_and_differ() {
    let first = NewNode::<String, String>::new();
    let second = NewNode::<String, String>::new();
    assert_ne!(first.id, second.id);
    assert_eq!(first.temp_id, None);
    assert_eq!(first.data, String::new());
    assert!(first.add_labels.is_empty());
    assert!(first.add_edges.is_empty());
    assert_eq!(first.set_id(9).id, 9);
}

#[test]
fn merging_new_nodes_unites_sets_and_keeps_the_first_payload() {
    let first = new_node(1, "", &["a"], vec![edge(1, 2, None)]);
    let mut second = new_node(1, "second", &["b", "a"], vec![edge(1, 3, None)]);
    second.temp_id = Some(40);
    let third = new_node(1, "third", &["c"], vec![edge(1, 2, None)]);

    let merged = first.merge_additive(second.clone()).unwrap();
    assert_eq!(merged.data, "second");
    assert_eq!(merged.temp_id, Some(40));
    assert_eq!(merged.add_labels.to_vec(), vec!["a".to_string(), "b".to_string()]);
    assert_eq!(merged.add_edges.len(), 2);

    let left = merged.merge_additive(third.clone()).unwrap();
    let right = first.merge_additive(second.merge_additive(third).unwrap()).unwrap();
    assert_eq!(left.id, right.id);
    assert_eq!(left.temp_id, right.temp_id);
    assert_eq!(left.data, "second");
    assert_eq!(right.data, "second");
    assert_eq!(sorted(left.add_labels.to_vec()), sorted(right.add_labels.to_vec()));
    assert_eq!(left.add_edges.len(), right.add_edges.len());
    for e in left.add_edges.to_vec() {
        assert!(right.add_edges.contains(&e));
    }
}

#[test]
fn merging_records_of_different_nodes_is_an_error() {
    let first = new_node(1, "", &[], vec![]);
    let second = new_node(2, "", &[], vec![]);
    assert_eq!(
        first.merge_additive(second).unwrap_err(),
        GraphError::Blueprint("cannot merge nodes with different ids\nID1: 1\nID2: 2".to_string())
    );
    let first = UpdateNode::<String, String>::new(10);
    let second = UpdateNode::<String, String>::new(11);
    assert_eq!(
        first.merge(second).unwrap_err().to_text(),
        "Blueprint Error: cannot merge nodes with different ids\nID1: 10\nID2: 11"
    );
}

#[test]
fn merging_updates_is_associative_and_keeps_the_first_payload() {
    let mut a = UpdateNode::<String, String>::new(5);
    a.add_labels = Some(VecSet::from_vec(vec!["x".to_string()]));
    let mut b = UpdateNode::<String, String>::new(5);
    b.replacement_data = Some("b".to_string());
    b.add_labels = Some(VecSet::from_vec(vec!["y".to_string()]));
    b.remove_edges = Some(VecSet::from_vec(vec![edge(5, 6, None)]));
    let mut c = UpdateNode::<String, String>::new(5);
    c.replacement_data = Some("c".to_string());
    c.add_labels = Some(VecSet::from_vec(vec!["x".to_string(), "z".to_string()]));

    let left = a.merge(b.clone()).unwrap().merge(c.clone()).unwrap();
    let right = a.merge(b.merge(c).unwrap()).unwrap();
    assert_eq!(left.replacement_data, Some("b".to_string()));
    assert_eq!(right.replacement_data, Some("b".to_string()));
    assert_eq!(
        sorted(left.add_labels.unwrap().to_vec()),
        vec!["x".to_string(), "y".to_string(), "z".to_string()]
    );
    assert_eq!(
        sorted(right.add_labels.unwrap().to_vec()),
        vec!["x".to_string(), "y".to_string(), "z".to_string()]
    );
    assert!(left.remove_labels.is_none() && right.remove_labels.is_none());
    assert!(left.add_edges.is_none() && right.add_edges.is_none());
    assert_eq!(left.remove_edges.unwrap().len(), 1);
    assert_eq!(right.remove_edges.unwrap().len(), 1);
}

#[test]
fn searching_staged_edges_finds_the_first_or_all() {
    let node = new_node(
        1,
        "",
        &[],
        vec![edge(1, 2, None), edge(1, 3, Some(EdgeDir::Recv)), edge(1, 4, None)],
    );
    let first = node.find_edges(&EdgeFinder::new().render_info(None));
    assert_eq!(first.len(), 1);
    assert_eq!(first.get(0).target, 2);
    let all = node.find_edges(&EdgeFinder::new().render_info(None).match_all());
    assert_eq!(all.len(), 2);
    assert_eq!(all.get(1).target, 4);
    assert_eq!(node.get_render_edge().unwrap().target, 3);
    assert!(new_node(1, "", &[], vec![edge(1, 2, None)]).get_render_edge().is_none());
}

#[test]
fn render_info_of_a_staged_edge_is_replaced() {
    let node = new_node(1, "", &[], vec![edge(1, 2, None), edge(1, 3, None)]);
    let marked = node.update_edge_render_info(&edge(1, 2, None), Some(EdgeDir::Emit));
    assert_eq!(marked.add_edges.len(), 2);
    assert!(marked.add_edges.contains(&edge(1, 2, Some(EdgeDir::Emit))));
    assert!(!marked.add_edges.contains(&edge(1, 2, None)));

    let update = UpdateNode::<String, String>::new(1);
    let marked = update.update_edge_render_info(&edge(1, 2, None), Some(EdgeDir::Emit));
    assert_eq!(marked.remove_edges.unwrap().to_vec(), vec![edge(1, 2, None)]);
    assert_eq!(marked.add_edges.unwrap().to_vec(), vec![edge(1, 2, Some(EdgeDir::Emit))]);

    let mut update = UpdateNode::<String, String>::new(1);
    update.add_edges = Some(VecSet::from_vec(vec![edge(1, 2, None)]));
    let marked = update.update_edge_render_info(&edge(1, 2, None), Some(EdgeDir::Emit));
    assert!(marked.remove_edges.is_none());
    assert_eq!(marked.add_edges.unwrap().to_vec(), vec![edge(1, 2, Some(EdgeDir::Emit))]);

    let mut update = UpdateNode::<String, String>::new(1);
    update.add_edges = Some(VecSet::from_vec(vec![edge(1, 3, Some(EdgeDir::Emit))]));
    let marked = update.update_edge_render_info(&edge(1, 2, None), Some(EdgeDir::Emit));
    assert_eq!(marked.remove_edges.unwrap().to_vec(), vec![edge(1, 2, None)]);
    assert_eq!(
        marked.add_edges.unwrap().to_vec(),
        vec![edge(1, 3, Some(EdgeDir::Emit)), edge(1, 2, Some(EdgeDir::Emit))]
    );
}

#[test]
fn inverting_a_transaction_twice_gives_it_back() {
    let mut new_nodes = VecMap::new();
    new_nodes.insert(1, new_node(1, "one", &["a"], vec![edge(1, 2, None)]));
    let mut update_nodes = VecMap::new();
    update_nodes.insert(
        2,
        FinalizedUpdateNode {
            id: 2,
            replacement_data: Some(UpdateNodeReplacementData {
                new_data: "new".to_string(),
                prev_data: "old".to_string(),
            }),
            add_labels: Some(VecSet::from_vec(vec!["l".to_string()])),
            remove_labels: None,
            add_edges: Some(VecSet::from_vec(vec![edge(2, 1, None).invert()])),
            remove_edges: None,
        },
    );
    let mut delete_nodes = VecMap::new();
    delete_nodes.insert(
        3,
        DeleteNode::new(3, VecSet::new(), VecSet::from_vec(vec!["gone".to_string()]), "three".to_string()),
    );
    let blueprint = FinalizedBlueprint { new_nodes, update_nodes, delete_nodes };

    let inverse = blueprint.invert_blueprint();
    assert!(inverse.delete_nodes.get(&1).is_some());
    assert_eq!(inverse.delete_nodes.get(&1).unwrap().data, "one");
    assert_eq!(inverse.new_nodes.get(&3).unwrap().data, "three");
    assert_eq!(inverse.new_nodes.get(&3).unwrap().add_labels.to_vec(), vec!["gone".to_string()]);
    let undone = inverse.update_nodes.get(&2).unwrap();
    assert_eq!(undone.replacement_data.as_ref().unwrap().new_data, "old");
    assert_eq!(undone.replacement_data.as_ref().unwrap().prev_data, "new");
    assert!(undone.add_labels.is_none());
    assert_eq!(undone.remove_labels.as_ref().unwrap().to_vec(), vec!["l".to_string()]);
    assert!(undone.add_edges.is_none());
    assert_eq!(undone.remove_edges.as_ref().unwrap().len(), 1);

    let back = inverse.invert_blueprint();
    assert_eq!(back.new_nodes.get(&1).unwrap().data, "one");
    assert_eq!(back.new_nodes.get(&1).unwrap().add_edges.to_vec(), vec![edge(1, 2, None)]);
    assert_eq!(back.update_nodes.get(&2).unwrap().replacement_data.as_ref().unwrap().new_data, "new");
    assert_eq!(back.delete_nodes.get(&3).unwrap().data, "three");
    assert_eq!(back.duplicate().new_nodes.len(), 1);
}
