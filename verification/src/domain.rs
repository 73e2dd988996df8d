use vstd::prelude::*;

use crate::ids::{AgentId, AgentValue};

verus! {

/// Non-owning view pairing a base state with an accumulated diff, both
/// borrowed for the duration of one query. The base state must be the same
/// root state that the diff was accumulated against; pairing a diff with a
/// mismatched state is a caller-side fault that yields meaningless results.
pub struct StateDiffRef<'a, D: Domain> {
    /// The root state the tree was built from.
    pub initial_state: &'a D::State,
    /// The total change accumulated from the root up to the point queried.
    pub diff: &'a D::Diff,
}

impl<'a, D: Domain> StateDiffRef<'a, D> {
    /// Builds a view from its two parts.
    pub fn new(initial_state: &'a D::State, diff: &'a D::Diff) -> (r: Self)
        ensures
            r.initial_state == initial_state,
            r.diff == diff,
    {
        StateDiffRef { initial_state, diff }
    }
}

/// Capability contract a concrete world must satisfy. The spec functions fix
/// which agents an agent observes and what each agent's current value is, as
/// pure functions of the effective state; the executable functions are bound
/// to them, so visibility and valuation are deterministic and free of side
/// effects, which is what makes per-node memoization and transposition
/// detection sound.
pub trait Domain: Sized {
    /// Complete world snapshot; owned by the search driver, only borrowed
    /// here.
    type State;

    /// Incremental, accumulated change relative to a base state.
    type Diff;

    /// An agent's action proposal in this world.
    type Task;

    /// The set of agents the given agent observes under the effective state.
    spec fn visible_agents_spec(state: Self::State, diff: Self::Diff, agent: AgentId) -> Set<
        AgentId,
    >;

    /// The given agent's current value under the effective state.
    spec fn current_value_spec(state: Self::State, diff: Self::Diff, agent: AgentId) -> AgentValue;

    /// A hash of a diff; being a function of the diff alone, equal diffs hash
    /// identically.
    spec fn diff_hash_spec(diff: Self::Diff) -> u64;

    /// Every agent observes itself. Implementations prove this once; node
    /// construction relies on it to cache a value for the active agent.
    proof fn lemma_visible_agents_contain_self(state: Self::State, diff: Self::Diff, agent: AgentId)
        ensures
            Self::visible_agents_spec(state, diff, agent).contains(agent),
    ;

    /// Computes the observable agents under the view.
    fn get_visible_agents(view: StateDiffRef<'_, Self>, agent: AgentId) -> (r: Vec<AgentId>)
        ensures
            r@.to_set() == Self::visible_agents_spec(*view.initial_state, *view.diff, agent),
    ;

    /// Computes the agent's current value under the view.
    fn get_current_value(view: StateDiffRef<'_, Self>, agent: AgentId) -> (r: AgentValue)
        ensures
            r == Self::current_value_spec(*view.initial_state, *view.diff, agent),
    ;

    /// Decides equality of two diffs.
    fn diff_eq(a: &Self::Diff, b: &Self::Diff) -> (r: bool)
        ensures
            r == (a == b),
    ;

    /// Computes the diff's hash.
    fn diff_hash(diff: &Self::Diff) -> (r: u64)
        ensures
            r == Self::diff_hash_spec(*diff),
    ;

    /// Whether the task is a legal proposal for the agent under the
    /// effective state.
    spec fn task_valid_spec(state: Self::State, diff: Self::Diff, task: Self::Task, agent: AgentId) -> bool;

    /// A hash of a task; being a function of the task alone, equal tasks
    /// hash identically.
    spec fn task_hash_spec(task: Self::Task) -> u64;

    /// Checks the task proposal against the view.
    fn task_is_valid(task: &Self::Task, view: StateDiffRef<'_, Self>, agent: AgentId) -> (r: bool)
        ensures
            r == Self::task_valid_spec(*view.initial_state, *view.diff, *task, agent),
    ;

    /// Decides equality of two task proposals.
    fn task_eq(a: &Self::Task, b: &Self::Task) -> (r: bool)
        ensures
            r == (a == b),
    ;

    /// Computes the task's hash.
    fn task_hash(task: &Self::Task) -> (r: u64)
        ensures
            r == Self::task_hash_spec(*task),
    ;
}

/// Capability contract for a reusable behavior of a domain: whether it
/// applies to an agent under an effective state.
pub trait Behavior<D: Domain> {
    /// Whether the behavior applies to the agent under the effective state.
    spec fn valid_spec(&self, state: D::State, diff: D::Diff, agent: AgentId) -> bool;

    /// Checks applicability against the view.
    fn is_valid(&self, view: StateDiffRef<'_, D>, agent: AgentId) -> (r: bool)
        ensures
            r == self.valid_spec(*view.initial_state, *view.diff, agent),
    ;
}

} // verus!
