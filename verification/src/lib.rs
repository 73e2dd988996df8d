//! Node and state-representation core of a tree-search decision engine.
//!
//! A search tree over a large world state is represented cheaply: every node
//! stores only the accumulated diff from the root state, the agent whose
//! decision the node records, that agent's candidate tasks, and a memoized
//! value cache for the agents visible at construction time. Equality and
//! hashing of nodes look only at the identity fields (active agent, diff,
//! tasks), never at the cache, so that identical future states reached along
//! different action sequences can be recognized and shared.

pub mod agent_map;
pub mod domain;
pub mod ids;
pub mod node;
pub mod sample;

pub use agent_map::AgentMap;
pub use domain::{Behavior, Domain, StateDiffRef};
pub use ids::{AgentId, AgentValue};
pub use node::{Node, NodeInner, WeakNode};
pub use sample::{Human, SampleDiff, SampleDomain, SampleState, SampleTask};
