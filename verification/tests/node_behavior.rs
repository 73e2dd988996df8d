use npc_engine_core::{
    AgentId, AgentMap, AgentValue, Behavior, Domain, Human, NodeInner, SampleDiff, SampleDomain,
    SampleState, SampleTask, StateDiffRef,
};

fn state(bound: u32, base: i32) -> SampleState {
    SampleState { bound, base }
}

fn diff(others_visible: bool, pos: u32, shift: i32) -> SampleDiff {
    SampleDiff { others_visible, pos, shift }
}

fn task(step: u32) -> SampleTask {
    SampleTask { step }
}

fn task_map(entries: &[(u32, u32)]) -> AgentMap<SampleTask> {
    let mut m = AgentMap::new();
    for &(agent, step) in entries {
        m.insert(AgentId(agent), task(step));
    }
    m
}

fn node(
    st: &SampleState,
    d: SampleDiff,
    agent: u32,
    entries: &[(u32, u32)],
) -> NodeInner<SampleDomain> {
    NodeInner::new(st, d, AgentId(agent), task_map(entries))
}

#[test]
fn equal_identity_nodes_compare_equal() {
    let st = state(10, 3);
    let n1 = node(&st, diff(true, 2, 5), 0, &[(0, 1), (1, 4)]);
    let n2 = node(&st, diff(true, 2, 5), 0, &[(1, 4), (0, 1)]);
    assert!(n1 == n2);
    assert_eq!(n1.node_hash(), n2.node_hash());
}

#[test]
fn equality_and_hash_ignore_value_cache() {
    // Same identity fields, but constructed from different base states, so
    // the memoized value caches differ; identity must not see that.
    let st1 = state(10, 0);
    let st2 = state(10, 100);
    let n1 = node(&st1, diff(false, 2, 5), 0, &[(0, 1)]);
    let n2 = node(&st2, diff(false, 2, 5), 0, &[(0, 1)]);
    assert_ne!(
        n1.current_value(AgentId(0)),
        n2.current_value(AgentId(0))
    );
    assert!(n1 == n2);
    assert_eq!(n1.node_hash(), n2.node_hash());
}

#[test]
fn unequal_nodes_compare_unequal() {
    let st = state(10, 3);
    let base = node(&st, diff(false, 2, 5), 0, &[(0, 1)]);
    let other_agent = node(&st, diff(false, 2, 5), 1, &[(0, 1)]);
    let other_diff = node(&st, diff(false, 3, 5), 0, &[(0, 1)]);
    let other_tasks = node(&st, diff(false, 2, 5), 0, &[(0, 2)]);
    assert!(base != other_agent);
    assert!(base != other_diff);
    assert!(base != other_tasks);
}

#[test]
fn active_agent_always_has_cached_value() {
    let st = state(10, 3);
    let n = node(&st, diff(false, 2, 5), 4, &[]);
    assert_eq!(n.agent(), AgentId(4));
    assert!(n.current_values().get(n.agent()).is_some());
}

#[test]
fn stale_task_for_active_agent_is_removed() {
    let st = state(10, 0);
    // Position 10 is out of bounds on a board of width 10, so the active
    // agent's proposal is stale; the other agent's entry must survive.
    let n = node(&st, diff(false, 10, 0), 0, &[(0, 3), (1, 7)]);
    assert!(n.tasks().get(AgentId(0)).is_none());
    assert_eq!(n.tasks().get(AgentId(1)), Some(&task(7)));
    assert_eq!(n.tasks().len(), 1);
}

#[test]
fn valid_task_for_active_agent_is_kept() {
    let st = state(10, 0);
    let n = node(&st, diff(false, 9, 0), 0, &[(0, 3), (1, 7)]);
    assert_eq!(n.tasks().get(AgentId(0)), Some(&task(3)));
    assert_eq!(n.tasks().get(AgentId(1)), Some(&task(7)));
}

#[test]
fn cached_value_is_returned_for_visible_agent() {
    let st = state(10, 3);
    let n = node(&st, diff(false, 2, 5), 0, &[]);
    // value = base + shift + agent id
    assert_eq!(n.current_value(AgentId(0)), AgentValue(8));
    assert_eq!(n.current_value_or_compute(AgentId(0), &st), AgentValue(8));
}

#[test]
fn uncached_value_matches_direct_domain_query() {
    let st = state(10, 3);
    let d = diff(false, 2, 5);
    let n = node(&st, d, 0, &[]);
    // Agent 7 was not visible at construction, so it is not cached.
    assert!(n.current_values().get(AgentId(7)).is_none());
    let direct = <SampleDomain as Domain>::get_current_value(
        StateDiffRef::new(&st, n.diff()),
        AgentId(7),
    );
    assert_eq!(n.current_value_or_compute(AgentId(7), &st), direct);
    assert_eq!(direct, AgentValue(15));
}

#[test]
fn visibility_scenario_controls_cache_contents() {
    let st = state(10, 3);
    let hidden = node(&st, diff(false, 2, 0), 0, &[]);
    assert_eq!(hidden.current_values().len(), 1);
    assert!(hidden.current_values().get(AgentId(0)).is_some());
    assert!(hidden.current_values().get(AgentId(1)).is_none());

    let revealed = node(&st, diff(true, 2, 0), 0, &[]);
    assert!(revealed.current_values().get(AgentId(0)).is_some());
    assert!(revealed.current_values().get(AgentId(1)).is_some());
    assert_eq!(revealed.current_value(AgentId(1)), AgentValue(4));
}

#[test]
fn out_of_bounds_move_scenario_drops_proposal() {
    let st = state(5, 0);
    let n = node(&st, diff(false, 6, 0), 0, &[(0, 1)]);
    assert!(n.tasks().get(AgentId(0)).is_none());
    assert_eq!(n.tasks().len(), 0);
}

#[test]
fn node_accessors_expose_identity_fields() {
    let st = state(10, 3);
    let d = diff(true, 2, 5);
    let n = node(&st, d, 2, &[]);
    assert_eq!(n.agent(), AgentId(2));
    assert_eq!(*n.diff(), d);
    let view = n.state_diff_ref(&st);
    assert_eq!(*view.initial_state, st);
    assert_eq!(*view.diff, d);
}

#[test]
fn size_accounts_for_record_cache_and_tasks() {
    let st = state(10, 3);
    let n = node(&st, diff(true, 2, 5), 0, &[(0, 1), (1, 4)]);
    let expected = std::mem::size_of::<NodeInner<SampleDomain>>()
        + n.current_values().len() * std::mem::size_of::<(AgentId, AgentValue)>()
        + (1 + 4) * 10;
    assert_eq!(n.size(|t: &SampleTask| t.step as usize * 10), expected);
}

#[test]
fn human_behavior_is_always_valid_and_named() {
    let st = state(10, 3);
    let d = diff(false, 2, 5);
    let human = Human;
    assert!(human.is_valid(StateDiffRef::new(&st, &d), AgentId(0)));
    assert_eq!(human.name(), "Human");
}

#[test]
fn agent_value_order() {
    assert!(AgentValue(-2).less_than(&AgentValue(3)));
    assert!(!AgentValue(3).less_than(&AgentValue(3)));
    assert!(!AgentValue(4).less_than(&AgentValue(3)));
}
