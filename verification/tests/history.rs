use routable_graph::blueprint::new_node::NewNode;
use routable_graph::blueprint::FinalizedBlueprint;
use routable_graph::collections::VecMap;
use routable_graph::graph::view_graph::ViewGraph;
use routable_graph::history::history_interface::HistoryInterface;
use routable_graph::history::history_item::HistoryItem;
use routable_graph::history::history_store::HistoryStore;
use routable_graph::hooks::GraphLock;

fn creation(id: u128) -> HistoryItem<String, String, String> {
    let mut new_nodes = VecMap::new();
    let mut node = NewNode::<String, String>::new().set_id(id);
    node.data = format!("node {}", id);
    new_nodes.insert(id, node);
    HistoryItem {
        blueprint: FinalizedBlueprint {
            new_nodes,
            update_nodes: VecMap::new(),
            delete_nodes: VecMap::new(),
        },
        action_data: format!("create {}", id),
    }
}

#[test]
fn the_history_hands_out_the_last_item_first_and_inverted() {
    let mut store = HistoryStore::<String, String, String>::new();
    assert!(store.undo().is_none());
    assert!(store.redo().is_none());
    store.push(creation(1));
    store.push(creation(2));
    assert_eq!(store.undo_stack.len(), 2);

    let undone = store.undo().unwrap();
    assert_eq!(undone.action_data, "create 2");
    assert!(undone.blueprint.new_nodes.is_empty());
    assert_eq!(undone.blueprint.delete_nodes.get(&2).unwrap().data, "node 2");
    assert_eq!(store.undo_stack.len(), 1);
    assert_eq!(store.redo_stack.len(), 1);

    let redone = store.redo().unwrap();
    assert_eq!(redone.blueprint.new_nodes.get(&2).unwrap().data, "node 2");
    assert!(redone.blueprint.delete_nodes.is_empty());
    assert_eq!(store.undo_stack.len(), 2);
    assert_eq!(store.redo_stack.len(), 0);

    store.undo().unwrap();
    store.push(creation(3));
    assert_eq!(store.redo_stack.len(), 0);
    assert_eq!(store.undo_stack.len(), 2);
    assert_eq!(store.undo().unwrap().action_data, "create 3");
    assert_eq!(store.undo().unwrap().action_data, "create 1");
    assert!(store.undo().is_none());
    assert_eq!(store.redo_stack.len(), 2);
}

#[test]
fn undoing_what_cannot_be_undone_leaves_the_graph_as_it_was() {
    let mut graph = ViewGraph::<String, String, String>::new();
    let mut history = HistoryInterface::new(HistoryStore::new());
    // the history says that node 1 was created, but the graph does not hold it
    history.push(creation(1));
    let error = history.undo(&mut graph, "undo".to_string()).unwrap_err();
    assert_eq!(error.to_text(), "Blueprint Error: Delete Node: Failed to find node, ID: 1");
    assert!(graph.nodes.is_empty());
    assert_eq!(history.history.undo_stack.len(), 0);
    assert_eq!(history.history.redo_stack.len(), 1);
    history.redo(&mut graph, "redo".to_string()).unwrap();
    assert_eq!(graph.get_node(&1).unwrap().data, "node 1");
    assert_eq!(graph.get_node(&1).unwrap().last_action.action_data.main_action, "redo");
    history.redo(&mut graph, "redo".to_string()).unwrap();
    assert_eq!(graph.nodes.len(), 1);
}

#[test]
fn the_lock_opens_and_closes() {
    let mut lock = GraphLock { is_locked: false };
    lock.lock();
    assert!(lock.is_locked);
    lock.unlock();
    assert!(!lock.is_locked);
    assert_eq!(creation(4).history_invert().history_invert().action_data, "create 4");
    assert_eq!(creation(4).duplicate().blueprint.new_nodes.len(), 1);
}
