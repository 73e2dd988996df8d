use vstd::prelude::*;

use crate::domain::{Behavior, Domain, StateDiffRef};
use crate::ids::{AgentId, AgentValue};
use crate::node::{mix, mix_exec};

verus! {

/// A small concrete world exercising the node core: a one-dimensional board
/// of a given width, walked by up to two agents.
#[derive(Clone, Copy, Debug, PartialEq, Eq, Structural, Hash)]
pub struct SampleState {
    /// Number of board cells; positions at or past it are out of bounds.
    pub bound: u32,
    /// Base score every agent starts from.
    pub base: i32,
}

/// Accumulated change of a [`SampleState`]: the active agent's position, a
/// score shift, and whether the other agents have come into view.
#[derive(Clone, Copy, Debug, PartialEq, Eq, Structural, Hash)]
pub struct SampleDiff {
    /// When set, the two board agents are visible to everyone.
    pub others_visible: bool,
    /// The active agent's current cell.
    pub pos: u32,
    /// Score change accumulated so far.
    pub shift: i32,
}

/// A move proposal on the board.
#[derive(Clone, Copy, Debug, PartialEq, Eq, Structural, Hash)]
pub struct SampleTask {
    /// How many cells the move advances.
    pub step: u32,
}

/// The domain tying the sample types together.
pub struct SampleDomain;

impl Domain for SampleDomain {
    type State = SampleState;

    type Diff = SampleDiff;

    type Task = SampleTask;

    open spec fn visible_agents_spec(state: SampleState, diff: SampleDiff, agent: AgentId) -> Set<
        AgentId,
    > {
        if diff.others_visible {
            set![agent, AgentId(0), AgentId(1)]
        } else {
            set![agent]
        }
    }

    open spec fn current_value_spec(
        state: SampleState,
        diff: SampleDiff,
        agent: AgentId,
    ) -> AgentValue {
        AgentValue(((state.base as int) + (diff.shift as int) + (agent.0 as int)) as i64)
    }

    open spec fn diff_hash_spec(diff: SampleDiff) -> u64 {
        mix(
            mix(
                if diff.others_visible {
                    1u64
                } else {
                    0u64
                },
                diff.pos as u64,
            ),
            diff.shift as u64,
        )
    }

    proof fn lemma_visible_agents_contain_self(
        state: SampleState,
        diff: SampleDiff,
        agent: AgentId,
    ) {
    }

    fn get_visible_agents(view: StateDiffRef<'_, Self>, agent: AgentId) -> (r: Vec<AgentId>) {
        let mut r: Vec<AgentId> = Vec::new();
        r.push(agent);
        if view.diff.others_visible {
            r.push(AgentId(0));
            r.push(AgentId(1));
        }
        proof {
            assert forall|x: AgentId| #[trigger] r@.to_set().contains(x)
                <==> Self::visible_agents_spec(*view.initial_state, *view.diff, agent).contains(
                x,
            ) by {
                if r@.contains(x) {
                    let j = choose|j: int| 0 <= j < r@.len() && r@[j] == x;
                }
                if x == agent {
                    assert(r@[0] == x);
                }
                if view.diff.others_visible {
                    if x == AgentId(0) {
                        assert(r@[1] == x);
                    }
                    if x == AgentId(1) {
                        assert(r@[2] == x);
                    }
                }
            }
            assert(r@.to_set() =~= Self::visible_agents_spec(
                *view.initial_state,
                *view.diff,
                agent,
            ));
        }
        r
    }

    fn get_current_value(view: StateDiffRef<'_, Self>, agent: AgentId) -> (r: AgentValue) {
        AgentValue(
            (view.initial_state.base as i64) + (view.diff.shift as i64) + (agent.0 as i64),
        )
    }

    fn diff_eq(a: &SampleDiff, b: &SampleDiff) -> (r: bool) {
        a == b
    }

    fn diff_hash(diff: &SampleDiff) -> (r: u64) {
        let flag: u64 = if diff.others_visible {
            1
        } else {
            0
        };
        mix_exec(mix_exec(flag, diff.pos as u64), diff.shift as u64)
    }

    open spec fn task_valid_spec(
        state: SampleState,
        diff: SampleDiff,
        task: SampleTask,
        agent: AgentId,
    ) -> bool {
        diff.pos < state.bound
    }

    open spec fn task_hash_spec(task: SampleTask) -> u64 {
        task.step as u64
    }

    fn task_is_valid(task: &SampleTask, view: StateDiffRef<'_, Self>, agent: AgentId) -> (r:
        bool) {
        view.diff.pos < view.initial_state.bound
    }

    fn task_eq(a: &SampleTask, b: &SampleTask) -> (r: bool) {
        a == b
    }

    fn task_hash(task: &SampleTask) -> (r: u64) {
        task.step as u64
    }
}

/// A behavior that applies to every agent in every state of the sample
/// world.
pub struct Human;

impl Human {
    /// Printable name of the behavior.
    pub fn name(&self) -> (r: String)
        ensures
            r@ == "Human"@,
    {
        "Human".to_owned()
    }
}

impl Behavior<SampleDomain> for Human {
    open spec fn valid_spec(&self, state: SampleState, diff: SampleDiff, agent: AgentId) -> bool {
        true
    }

    fn is_valid(&self, view: StateDiffRef<'_, SampleDomain>, agent: AgentId) -> (r: bool) {
        true
    }
}

} // verus!
