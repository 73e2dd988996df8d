use vstd::prelude::*;

use crate::agent_map::{entries_map, lemma_equal_maps_equal_entries, strictly_sorted, AgentMap};
use crate::domain::{Domain, StateDiffRef};
use crate::ids::{AgentId, AgentValue};
use std::sync::{Arc, Weak};

verus! {

/// Strong reference-counted handle to a node: keeps the node alive.
pub type Node<D> = Arc<NodeInner<D>>;

/// Weak handle to a node: observes without keeping alive; upgrading fails
/// once the last strong handle is dropped.
pub type WeakNode<D> = Weak<NodeInner<D>>;

/// One point of the search tree: the agent whose decision it records, the
/// diff accumulated from the tree root (total change, not a delta from the
/// parent), the candidate task of each agent, and a cache of the current
/// value of every agent visible at construction. Immutable once built;
/// identity (equality and hashing) covers the first three fields only, never
/// the cache.
pub struct NodeInner<D: Domain> {
    diff: D::Diff,
    active_agent: AgentId,
    tasks: AgentMap<D::Task>,
    current_values: AgentMap<AgentValue>,
}

/// One mixing step of the node hash; a pure function, so equal inputs give
/// equal hashes.
pub open spec fn mix(h: u64, x: u64) -> u64 {
    (h << 7) ^ (h >> 3) ^ x
}

/// Executable form of [`mix`].
pub fn mix_exec(h: u64, x: u64) -> (r: u64)
    ensures
        r == mix(h, x),
{
    (h << 7u64) ^ (h >> 3u64) ^ x
}

/// The hash of the first `n` task entries folded onto the accumulator `h0`,
/// mixing each key and task hash in entry order.
pub open spec fn tasks_hash<D: Domain>(s: Seq<(AgentId, D::Task)>, h0: u64, n: int) -> u64
    decreases n,
{
    if n <= 0 {
        h0
    } else {
        mix(mix(tasks_hash::<D>(s, h0, n - 1), s[n - 1].0.0 as u64), D::task_hash_spec(s[n - 1].1))
    }
}

/// Saturating sum of two sizes.
pub open spec fn sat_add(a: usize, b: usize) -> usize {
    if a + b > usize::MAX {
        usize::MAX
    } else {
        (a + b) as usize
    }
}

/// Saturating product of two sizes.
pub open spec fn sat_mul(a: usize, b: usize) -> usize {
    if a * b > usize::MAX {
        usize::MAX
    } else {
        (a * b) as usize
    }
}

/// The saturating sum of `base` and the first `n` sizes.
pub open spec fn sat_sum(base: usize, sizes: Seq<usize>, n: int) -> usize
    decreases n,
{
    if n <= 0 {
        base
    } else {
        sat_add(sat_sum(base, sizes, n - 1), sizes[n - 1])
    }
}

fn sat_add_exec(a: usize, b: usize) -> (r: usize)
    ensures
        r == sat_add(a, b),
{
    if a > usize::MAX - b {
        usize::MAX
    } else {
        a + b
    }
}

fn sat_mul_exec(a: usize, b: usize) -> (r: usize)
    ensures
        r == sat_mul(a, b),
{
    match a.checked_mul(b) {
        Some(p) => p,
        None => usize::MAX,
    }
}

proof fn lemma_sat_sum_push(base: usize, sizes: Seq<usize>, x: usize, n: int)
    requires
        0 <= n <= sizes.len(),
    ensures
        sat_sum(base, sizes.push(x), n) == sat_sum(base, sizes, n),
    decreases n,
{
    if n > 0 {
        lemma_sat_sum_push(base, sizes, x, n - 1);
        assert(sizes.push(x)[n - 1] == sizes[n - 1]);
    }
}

impl<D: Domain> NodeInner<D> {
    /// The agent whose decision this node records.
    pub closed spec fn agent_spec(&self) -> AgentId {
        self.active_agent
    }

    /// The diff accumulated from the tree root to this node.
    pub closed spec fn diff_spec(&self) -> D::Diff {
        self.diff
    }

    /// The task entries, in increasing key order.
    pub closed spec fn tasks_seq(&self) -> Seq<(AgentId, D::Task)> {
        self.tasks.entry_seq()
    }

    /// The value-cache entries, in increasing key order.
    pub closed spec fn values_seq(&self) -> Seq<(AgentId, AgentValue)> {
        self.current_values.entry_seq()
    }

    /// The task of each agent that has one.
    pub open spec fn tasks_map(&self) -> Map<AgentId, D::Task> {
        entries_map(self.tasks_seq())
    }

    /// The memoized current value of each agent visible at construction.
    pub open spec fn values_map(&self) -> Map<AgentId, AgentValue> {
        entries_map(self.values_seq())
    }

    /// Structural invariant: both tables are sorted and the active agent has
    /// a cached value (an agent always observes itself).
    pub open spec fn wf(&self) -> bool {
        &&& strictly_sorted(self.tasks_seq())
        &&& strictly_sorted(self.values_seq())
        &&& self.values_map().contains_key(self.agent_spec())
    }

    /// Node identity: active agent, diff and tasks, component-wise. The value
    /// cache is deliberately no part of it, so that equal future states
    /// reached along different paths compare equal.
    pub open spec fn node_eq_spec(&self, other: &Self) -> bool {
        &&& self.agent_spec() == other.agent_spec()
        &&& self.diff_spec() == other.diff_spec()
        &&& self.tasks_seq() == other.tasks_seq()
    }

    /// The node hash: active agent, diff hash and task hashes mixed in that
    /// order, over the identity fields only.
    pub open spec fn hash_spec(&self) -> u64 {
        tasks_hash::<D>(
            self.tasks_seq(),
            mix(mix(0xcbf29ce484222325u64, self.agent_spec().0 as u64), D::diff_hash_spec(self.diff_spec())),
            self.tasks_seq().len() as int,
        )
    }

    /// Builds a node from a base state, the accumulated diff, the active
    /// agent and the proposed task table. A proposal for the active agent
    /// that is no longer valid under the resulting state-diff view is
    /// silently dropped; every other entry is kept unchanged. The value
    /// cache is filled for exactly the agents visible to the active agent,
    /// each with its current value under the same view.
    pub fn new(
        initial_state: &D::State,
        diff: D::Diff,
        active_agent: AgentId,
        tasks: AgentMap<D::Task>,
    ) -> (r: Self)
        requires
            tasks.wf(),
        ensures
            r.wf(),
            r.agent_spec() == active_agent,
            r.diff_spec() == diff,
            r.tasks_map() == (if tasks@.contains_key(active_agent) && !D::task_valid_spec(
                *initial_state,
                diff,
                tasks@[active_agent],
                active_agent,
            ) {
                tasks@.remove(active_agent)
            } else {
                tasks@
            }),
            r.values_map().dom() == D::visible_agents_spec(*initial_state, diff, active_agent),
            forall|a: AgentId|
                r.values_map().contains_key(a) ==> r.values_map()[a] == D::current_value_spec(
                    *initial_state,
                    diff,
                    a,
                ),
    {
        let mut tasks = tasks;
        let stale = match tasks.get(active_agent) {
            Some(task) => !D::task_is_valid(
                task,
                StateDiffRef::new(initial_state, &diff),
                active_agent,
            ),
            None => false,
        };
        if stale {
            tasks.remove(active_agent);
        }
        let agents = D::get_visible_agents(StateDiffRef::new(initial_state, &diff), active_agent);
        proof {
            D::lemma_visible_agents_contain_self(*initial_state, diff, active_agent);
        }
        let mut current_values: AgentMap<AgentValue> = AgentMap::new();
        let n = agents.len();
        let mut i: usize = 0;
        while i < n
            invariant
                n == agents@.len(),
                i <= n,
                current_values.wf(),
                current_values@.dom() == agents@.take(i as int).to_set(),
                forall|a: AgentId|
                    current_values@.contains_key(a) ==> current_values@[a]
                        == D::current_value_spec(*initial_state, diff, a),
                agents@.to_set() == D::visible_agents_spec(*initial_state, diff, active_agent),
            decreases n - i,
        {
            let a = agents[i];
            let v = D::get_current_value(StateDiffRef::new(initial_state, &diff), a);
            current_values.insert(a, v);
            proof {
                assert forall|x: AgentId| #[trigger] agents@.take(i + 1).to_set().contains(x)
                    <==> agents@.take(i as int).to_set().contains(x) || x == a by {
                    if agents@.take(i + 1).contains(x) {
                        let j = choose|j: int|
                            0 <= j < i + 1 && #[trigger] agents@.take(i + 1)[j] == x;
                        if j < i {
                            assert(agents@.take(i as int)[j] == x);
                        }
                    }
                    if agents@.take(i as int).contains(x) {
                        let j = choose|j: int|
                            0 <= j < i && #[trigger] agents@.take(i as int)[j] == x;
                        assert(agents@.take(i + 1)[j] == x);
                    }
                    if x == a {
                        assert(agents@.take(i + 1)[i as int] == x);
                    }
                }
                assert(current_values@.dom() =~= agents@.take(i + 1).to_set());
            }
            i += 1;
        }
        proof {
            assert(agents@.take(n as int) =~= agents@);
        }
        NodeInner { diff, active_agent, tasks, current_values }
    }

    /// The agent who owns the node.
    pub fn agent(&self) -> (r: AgentId)
        ensures
            r == self.agent_spec(),
    {
        self.active_agent
    }

    /// The accumulated diff of this node, by reference.
    pub fn diff(&self) -> (r: &D::Diff)
        ensures
            *r == self.diff_spec(),
    {
        &self.diff
    }

    /// Combines the caller-supplied base state with this node's diff into a
    /// transient view. The caller must supply the same root state the node
    /// was constructed from.
    pub fn state_diff_ref<'a>(&'a self, initial_state: &'a D::State) -> (r: StateDiffRef<'a, D>)
        ensures
            r.initial_state == initial_state,
            *r.diff == self.diff_spec(),
    {
        StateDiffRef::new(initial_state, &self.diff)
    }

    /// The memoized value of an agent that was visible at construction.
    /// Querying any other agent is a caller-contract violation, excluded
    /// here by precondition.
    pub fn current_value(&self, agent: AgentId) -> (r: AgentValue)
        requires
            self.wf(),
            self.values_map().contains_key(agent),
        ensures
            r == self.values_map()[agent],
    {
        *self.current_values.get(agent).unwrap()
    }

    /// The memoized value of the agent if it was visible at construction,
    /// and otherwise the value freshly computed from the supplied base state
    /// and this node's diff. Lets a caller score agents outside the node's
    /// visibility set without every node caching every agent.
    pub fn current_value_or_compute(&self, agent: AgentId, initial_state: &D::State) -> (r:
        AgentValue)
        requires
            self.wf(),
        ensures
            r == (if self.values_map().contains_key(agent) {
                self.values_map()[agent]
            } else {
                D::current_value_spec(*initial_state, self.diff_spec(), agent)
            }),
    {
        match self.current_values.get(agent) {
            Some(v) => *v,
            None => D::get_current_value(StateDiffRef::new(initial_state, &self.diff), agent),
        }
    }

    /// The full memoized value table, read-only.
    pub fn current_values(&self) -> (r: &AgentMap<AgentValue>)
        ensures
            r@ == self.values_map(),
            r.entry_seq() == self.values_seq(),
            self.wf() ==> r.wf(),
    {
        &self.current_values
    }

    /// The task table, read-only.
    pub fn tasks(&self) -> (r: &AgentMap<D::Task>)
        ensures
            r@ == self.tasks_map(),
            r.entry_seq() == self.tasks_seq(),
            self.wf() ==> r.wf(),
    {
        &self.tasks
    }

    /// Approximate byte footprint of the node: the structural size of the
    /// record, the per-entry cost of the value cache, and a caller-supplied
    /// sizing function applied to each task (tasks are domain-polymorphic,
    /// so the node cannot size them itself). Advisory: sums saturate instead
    /// of overflowing and no allocator bookkeeping is counted.
    pub fn size<F: Fn(&D::Task) -> usize>(&self, task_size: F) -> (r: usize)
        requires
            forall|t: &D::Task| call_requires(task_size, (t,)),
        ensures
            exists|sizes: Seq<usize>|
                {
                    &&& #[trigger] sizes.len() == self.tasks_seq().len()
                    &&& forall|j: int|
                        0 <= j < sizes.len() ==> call_ensures(
                            task_size,
                            (&self.tasks_seq()[j].1,),
                            sizes[j],
                        )
                    &&& r == sat_sum(
                        sat_add(
                            core::mem::size_of::<NodeInner<D>>(),
                            sat_mul(
                                self.values_seq().len() as usize,
                                core::mem::size_of::<(AgentId, AgentValue)>(),
                            ),
                        ),
                        sizes,
                        sizes.len() as int,
                    )
                },
    {
        let record = core::mem::size_of::<NodeInner<D>>();
        let per_value = core::mem::size_of::<(AgentId, AgentValue)>();
        let mut total = sat_add_exec(record, sat_mul_exec(self.current_values.len(), per_value));
        let ghost base = total;
        let ghost mut sizes: Seq<usize> = Seq::empty();
        let n = self.tasks.len();
        let mut i: usize = 0;
        while i < n
            invariant
                n == self.tasks_seq().len(),
                i <= n,
                sizes.len() == i,
                forall|t: &D::Task| call_requires(task_size, (t,)),
                forall|j: int|
                    0 <= j < i ==> call_ensures(task_size, (&self.tasks_seq()[j].1,), sizes[j]),
                total == sat_sum(base, sizes, i as int),
                base == sat_add(
                    core::mem::size_of::<NodeInner<D>>(),
                    sat_mul(
                        self.values_seq().len() as usize,
                        core::mem::size_of::<(AgentId, AgentValue)>(),
                    ),
                ),
            decreases n - i,
        {
            let e = self.tasks.entry_at(i);
            let t_size = task_size(&e.1);
            proof {
                lemma_sat_sum_push(base, sizes, t_size, i as int);
                sizes = sizes.push(t_size);
            }
            total = sat_add_exec(total, t_size);
            i += 1;
        }
        total
    }

    /// The node hash, combining active agent, diff and tasks in that order;
    /// consistent with node equality because it is a pure function of the
    /// identity fields.
    pub fn node_hash(&self) -> (r: u64)
        ensures
            r == self.hash_spec(),
    {
        let mut h = mix_exec(0xcbf29ce484222325u64, self.active_agent.0 as u64);
        h = mix_exec(h, D::diff_hash(&self.diff));
        let ghost h0 = h;
        let n = self.tasks.len();
        let mut i: usize = 0;
        while i < n
            invariant
                n == self.tasks_seq().len(),
                i <= n,
                h == tasks_hash::<D>(self.tasks_seq(), h0, i as int),
                h0 == mix(
                    mix(0xcbf29ce484222325u64, self.agent_spec().0 as u64),
                    D::diff_hash_spec(self.diff_spec()),
                ),
            decreases n - i,
        {
            let e = self.tasks.entry_at(i);
            h = mix_exec(h, e.0.0 as u64);
            h = mix_exec(h, D::task_hash(&e.1));
            i += 1;
        }
        h
    }
}

impl<D: Domain> PartialEq for NodeInner<D> {
    /// Structural equality over the identity fields: active agent, diff and
    /// tasks. The value cache never takes part.
    fn eq(&self, other: &Self) -> (r: bool) {
        if self.active_agent.0 != other.active_agent.0 {
            proof {
                assert(!self.node_eq_spec(other));
            }
            return false;
        }
        if !D::diff_eq(&self.diff, &other.diff) {
            return false;
        }
        let n = self.tasks.len();
        if n != other.tasks.len() {
            proof {
                assert(self.tasks_seq().len() != other.tasks_seq().len());
            }
            return false;
        }
        let mut i: usize = 0;
        while i < n
            invariant
                n == self.tasks_seq().len(),
                n == other.tasks_seq().len(),
                i <= n,
                self.active_agent == other.active_agent,
                self.diff == other.diff,
                forall|j: int| 0 <= j < i ==> self.tasks_seq()[j] == other.tasks_seq()[j],
            decreases n - i,
        {
            let e1 = self.tasks.entry_at(i);
            let e2 = other.tasks.entry_at(i);
            if e1.0.0 != e2.0.0 {
                proof {
                    assert(self.tasks_seq()[i as int] != other.tasks_seq()[i as int]);
                }
                return false;
            }
            if !D::task_eq(&e1.1, &e2.1) {
                proof {
                    assert(self.tasks_seq()[i as int] != other.tasks_seq()[i as int]);
                }
                return false;
            }
            proof {
                assert(self.tasks_seq()[i as int] == other.tasks_seq()[i as int]);
            }
            i += 1;
        }
        proof {
            assert(self.tasks_seq() =~= other.tasks_seq());
        }
        true
    }
}

impl<D: Domain> Eq for NodeInner<D> {}

impl<D: Domain> vstd::std_specs::cmp::PartialEqSpecImpl for NodeInner<D> {
    open spec fn obeys_eq_spec() -> bool {
        true
    }

    open spec fn eq_spec(&self, other: &Self) -> bool {
        self.node_eq_spec(other)
    }
}

/// Node identity does not depend on the value cache: any two well-formed
/// nodes that agree on active agent, diff and tasks (as a map) are equal and
/// hash identically, however their caches were produced.
pub proof fn lemma_identity_determines_eq_and_hash<D: Domain>(n1: &NodeInner<D>, n2: &NodeInner<D>)
    requires
        n1.wf(),
        n2.wf(),
        n1.agent_spec() == n2.agent_spec(),
        n1.diff_spec() == n2.diff_spec(),
        n1.tasks_map() == n2.tasks_map(),
    ensures
        n1.node_eq_spec(n2),
        n1.hash_spec() == n2.hash_spec(),
{
    lemma_equal_maps_equal_entries::<D::Task>(n1.tasks_seq(), n2.tasks_seq());
}

/// Every well-formed node caches a value for its own active agent: the
/// agent's identifier is a key of the value table.
pub proof fn lemma_agent_has_cached_value<D: Domain>(n: &NodeInner<D>)
    requires
        n.wf(),
    ensures
        n.values_map().contains_key(n.agent_spec()),
{
}

} // verus!
