use std::sync::Arc;

use npc_engine_core::{
    AgentId, AgentMap, Node, NodeInner, SampleDiff, SampleDomain, SampleState, SampleTask,
    WeakNode,
};

fn sample_node() -> NodeInner<SampleDomain> {
    let st = SampleState { bound: 10, base: 0 };
    let d = SampleDiff { others_visible: false, pos: 1, shift: 0 };
    NodeInner::new(&st, d, AgentId(0), AgentMap::new())
}

#[test]
fn weak_handle_upgrades_while_a_strong_handle_exists() {
    let strong: Node<SampleDomain> = Arc::new(sample_node());
    let weak: WeakNode<SampleDomain> = Arc::downgrade(&strong);
    let second = weak.upgrade();
    assert!(second.is_some());
    assert!(*second.unwrap() == *strong);
}

#[test]
fn weak_handle_fails_once_all_strong_handles_are_dropped() {
    let strong: Node<SampleDomain> = Arc::new(sample_node());
    let weak: WeakNode<SampleDomain> = Arc::downgrade(&strong);
    let second = Arc::clone(&strong);
    drop(strong);
    assert!(weak.upgrade().is_some());
    drop(second);
    assert!(weak.upgrade().is_none());
}

#[test]
fn agent_map_insert_get_remove() {
    let mut m: AgentMap<SampleTask> = AgentMap::new();
    assert_eq!(m.len(), 0);
    m.insert(AgentId(5), SampleTask { step: 1 });
    m.insert(AgentId(2), SampleTask { step: 2 });
    m.insert(AgentId(9), SampleTask { step: 3 });
    assert_eq!(m.len(), 3);
    assert_eq!(m.get(AgentId(2)), Some(&SampleTask { step: 2 }));
    assert_eq!(m.get(AgentId(5)), Some(&SampleTask { step: 1 }));
    assert_eq!(m.get(AgentId(9)), Some(&SampleTask { step: 3 }));
    assert_eq!(m.get(AgentId(4)), None);
    m.remove(AgentId(5));
    assert_eq!(m.len(), 2);
    assert_eq!(m.get(AgentId(5)), None);
    m.remove(AgentId(4));
    assert_eq!(m.len(), 2);
}

#[test]
fn agent_map_insert_replaces_existing_binding() {
    let mut m: AgentMap<SampleTask> = AgentMap::new();
    m.insert(AgentId(1), SampleTask { step: 1 });
    m.insert(AgentId(1), SampleTask { step: 8 });
    assert_eq!(m.len(), 1);
    assert_eq!(m.get(AgentId(1)), Some(&SampleTask { step: 8 }));
}

#[test]
fn agent_map_entries_stay_sorted_by_key() {
    let mut m: AgentMap<SampleTask> = AgentMap::new();
    m.insert(AgentId(7), SampleTask { step: 1 });
    m.insert(AgentId(3), SampleTask { step: 2 });
    m.insert(AgentId(5), SampleTask { step: 3 });
    let keys: Vec<u32> = (0..m.len()).map(|i| m.entry_at(i).0 .0).collect();
    assert_eq!(keys, vec![3, 5, 7]);
}
