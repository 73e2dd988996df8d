use vstd::prelude::*;

use crate::ids::AgentId;

verus! {

/// True when the entries are strictly increasing in the key's inner
/// identifier; keys are then unique and the entry order is canonical.
pub open spec fn strictly_sorted<V>(s: Seq<(AgentId, V)>) -> bool {
    forall|i: int, j: int| 0 <= i < j < s.len() ==> s[i].0.0 < s[j].0.0
}

/// The mathematical map described by a sequence of key-value entries: a key
/// is bound exactly when some entry carries it, to the value of such an
/// entry.
pub open spec fn entries_map<V>(s: Seq<(AgentId, V)>) -> Map<AgentId, V> {
    Map::new(
        |k: AgentId| exists|i: int| 0 <= i < s.len() && s[i].0 == k,
        |k: AgentId| s[choose|i: int| 0 <= i < s.len() && s[i].0 == k].1,
    )
}

/// Ordered association map from `AgentId` to `V`, held as a vector of entries
/// strictly sorted by key. A node keeps both its task table and its value
/// cache in this shape, so equal maps have equal entry sequences and hashing
/// over the entries is canonical.
pub struct AgentMap<V> {
    entries: Vec<(AgentId, V)>,
}

impl<V> View for AgentMap<V> {
    type V = Map<AgentId, V>;

    open spec fn view(&self) -> Map<AgentId, V> {
        entries_map(self.entry_seq())
    }
}

impl<V> AgentMap<V> {
    /// The entries in increasing key order.
    pub closed spec fn entry_seq(&self) -> Seq<(AgentId, V)> {
        self.entries@
    }

    /// Well-formedness: the entries are strictly sorted by key.
    pub open spec fn wf(&self) -> bool {
        strictly_sorted(self.entry_seq())
    }

    /// The empty map.
    pub fn new() -> (r: Self)
        ensures
            r.wf(),
            r@ == Map::<AgentId, V>::empty(),
            r.entry_seq() == Seq::<(AgentId, V)>::empty(),
    {
        let r = AgentMap { entries: Vec::new() };
        proof {
            assert(r@ =~= Map::<AgentId, V>::empty());
        }
        r
    }

    /// Number of entries, which is also the size of the map's domain.
    pub fn len(&self) -> (r: usize)
        ensures
            r == self.entry_seq().len(),
    {
        self.entries.len()
    }

    /// The entry of a given rank, in increasing key order.
    pub fn entry_at(&self, i: usize) -> (r: &(AgentId, V))
        requires
            i < self.entry_seq().len(),
        ensures
            *r == self.entry_seq()[i as int],
    {
        &self.entries[i]
    }

    /// Looks the agent up, returning a reference to its value when bound.
    pub fn get(&self, agent: AgentId) -> (r: Option<&V>)
        requires
            self.wf(),
        ensures
            match r {
                Some(v) => self@.contains_key(agent) && *v == self@[agent],
                None => !self@.contains_key(agent),
            },
    {
        let n = self.entries.len();
        let mut i: usize = 0;
        while i < n
            invariant
                n == self.entries@.len(),
                i <= n,
                self.wf(),
                forall|j: int| 0 <= j < i ==> self.entries@[j].0.0 != agent.0,
            decreases n - i,
        {
            let e = &self.entries[i];
            if e.0.0 == agent.0 {
                proof {
                    assert(self.entries@[i as int].0 == agent);
                    lemma_entry_decides(self.entries@, i as int);
                }
                return Some(&e.1);
            }
            i += 1;
        }
        proof {
            if self@.contains_key(agent) {
                let j = choose|j: int| 0 <= j < self.entries@.len() && self.entries@[j].0 == agent;
                assert(self.entries@[j].0.0 != agent.0);
                assert(false);
            }
        }
        None
    }

    /// Binds the agent to the value, replacing any previous binding and
    /// keeping the entries sorted.
    pub fn insert(&mut self, agent: AgentId, value: V)
        requires
            old(self).wf(),
        ensures
            final(self).wf(),
            final(self)@ == old(self)@.insert(agent, value),
    {
        let n = self.entries.len();
        let mut i: usize = 0;
        while i < n && self.entries[i].0.0 < agent.0
            invariant
                n == self.entries@.len(),
                i <= n,
                self.wf(),
                self.entries@ == old(self).entries@,
                forall|j: int| 0 <= j < i ==> self.entries@[j].0.0 < agent.0,
            decreases n - i,
        {
            i += 1;
        }
        let ghost s_old = self.entries@;
        if i < n && self.entries[i].0.0 == agent.0 {
            self.entries.remove(i);
            self.entries.insert(i, (agent, value));
            proof {
                assert(self.entries@ =~= s_old.update(i as int, (agent, value)));
                lemma_replace_at(s_old, i as int, agent, value);
            }
        } else {
            self.entries.insert(i, (agent, value));
            proof {
                lemma_insert_at(s_old, i as int, agent, value);
            }
        }
    }

    /// Drops the agent's binding, if any, keeping the entries sorted.
    pub fn remove(&mut self, agent: AgentId)
        requires
            old(self).wf(),
        ensures
            final(self).wf(),
            final(self)@ == old(self)@.remove(agent),
    {
        let n = self.entries.len();
        let mut i: usize = 0;
        while i < n
            invariant
                n == self.entries@.len(),
                i <= n,
                self.wf(),
                self.entries@ == old(self).entries@,
                forall|j: int| 0 <= j < i ==> self.entries@[j].0.0 != agent.0,
            decreases n - i,
        {
            let found = self.entries[i].0.0 == agent.0;
            if found {
                let ghost s_old = self.entries@;
                self.entries.remove(i);
                proof {
                    lemma_remove_at(s_old, i as int, agent);
                }
                return;
            }
            i += 1;
        }
        proof {
            if old(self)@.contains_key(agent) {
                let j = choose|j: int| 0 <= j < self.entries@.len() && self.entries@[j].0 == agent;
                assert(self.entries@[j].0.0 != agent.0);
                assert(false);
            }
            assert(self@ =~= old(self)@.remove(agent));
        }
    }
}

/// In a strictly sorted entry sequence, the entry of index `i` decides the
/// map at its key.
pub proof fn lemma_entry_decides<V>(s: Seq<(AgentId, V)>, i: int)
    requires
        strictly_sorted(s),
        0 <= i < s.len(),
    ensures
        entries_map(s).contains_key(s[i].0),
        entries_map(s)[s[i].0] == s[i].1,
{
    let k = s[i].0;
    assert(0 <= i < s.len() && s[i].0 == k);
    let j = choose|j: int| 0 <= j < s.len() && s[j].0 == k;
    if j < i {
        assert(s[j].0.0 < s[i].0.0);
        assert(false);
    }
    if i < j {
        assert(s[i].0.0 < s[j].0.0);
        assert(false);
    }
}

/// Replacing the entry of index `i` by one with the same key updates the map
/// at that key alone.
proof fn lemma_replace_at<V>(s: Seq<(AgentId, V)>, i: int, agent: AgentId, value: V)
    requires
        strictly_sorted(s),
        0 <= i < s.len(),
        s[i].0 == agent,
    ensures
        strictly_sorted(s.update(i, (agent, value))),
        entries_map(s.update(i, (agent, value))) == entries_map(s).insert(agent, value),
{
    let t = s.update(i, (agent, value));
    assert forall|p: int, q: int| 0 <= p < q < t.len() implies t[p].0.0 < t[q].0.0 by {
        assert(s[p].0.0 < s[q].0.0);
    }
    assert forall|k: AgentId| #[trigger] entries_map(t).contains_key(k)
        <==> entries_map(s).insert(agent, value).contains_key(k) by {
        if entries_map(t).contains_key(k) {
            let p = choose|p: int| 0 <= p < t.len() && t[p].0 == k;
            assert(0 <= p < s.len() && s[p].0 == k);
            lemma_entry_decides(s, p);
        }
        if entries_map(s).insert(agent, value).contains_key(k) {
            if k == agent {
                assert(0 <= i < t.len() && t[i].0 == k);
            } else {
                let p = choose|p: int| 0 <= p < s.len() && s[p].0 == k;
                assert(0 <= p < t.len() && t[p].0 == k);
            }
        }
    }
    assert forall|k: AgentId| entries_map(t).contains_key(k)
        implies #[trigger] entries_map(t)[k] == entries_map(s).insert(agent, value)[k] by {
        let p = choose|p: int| 0 <= p < t.len() && t[p].0 == k;
        lemma_entry_decides(t, p);
        if k == agent {
            if p != i {
                assert(t[p].0.0 != t[i].0.0);
                assert(false);
            }
        } else {
            assert(p != i);
            lemma_entry_decides(s, p);
        }
    }
    assert(entries_map(t) =~= entries_map(s).insert(agent, value));
}

/// Inserting an entry at the key's sorted position extends the map by that
/// binding.
proof fn lemma_insert_at<V>(s: Seq<(AgentId, V)>, i: int, agent: AgentId, value: V)
    requires
        strictly_sorted(s),
        0 <= i <= s.len(),
        forall|j: int| 0 <= j < i ==> s[j].0.0 < agent.0,
        forall|j: int| i <= j < s.len() ==> s[j].0.0 > agent.0,
    ensures
        strictly_sorted(s.insert(i, (agent, value))),
        entries_map(s.insert(i, (agent, value))) == entries_map(s).insert(agent, value),
{
    let t = s.insert(i, (agent, value));
    assert(t.len() == s.len() + 1);
    assert forall|j: int| 0 <= j < t.len() implies #[trigger] t[j] == (if j < i {
        s[j]
    } else if j == i {
        (agent, value)
    } else {
        s[j - 1]
    }) by {
    }
    assert forall|p: int, q: int| 0 <= p < q < t.len() implies t[p].0.0 < t[q].0.0 by {
    }
    assert forall|k: AgentId| #[trigger] entries_map(t).contains_key(k)
        <==> entries_map(s).insert(agent, value).contains_key(k) by {
        if entries_map(t).contains_key(k) {
            let p = choose|p: int| 0 <= p < t.len() && t[p].0 == k;
            if p < i {
                assert(0 <= p < s.len() && s[p].0 == k);
            } else if p > i {
                assert(0 <= p - 1 < s.len() && s[p - 1].0 == k);
            }
        }
        if entries_map(s).insert(agent, value).contains_key(k) {
            if k == agent {
                assert(0 <= i < t.len() && t[i].0 == k);
            } else {
                let p = choose|p: int| 0 <= p < s.len() && s[p].0 == k;
                if p < i {
                    assert(0 <= p < t.len() && t[p].0 == k);
                } else {
                    assert(0 <= p + 1 < t.len() && t[p + 1].0 == k);
                }
            }
        }
    }
    assert forall|k: AgentId| entries_map(t).contains_key(k)
        implies #[trigger] entries_map(t)[k] == entries_map(s).insert(agent, value)[k] by {
        let p = choose|p: int| 0 <= p < t.len() && t[p].0 == k;
        lemma_entry_decides(t, p);
        if k == agent {
            if p != i {
                assert(t[p].0.0 != agent.0);
                assert(false);
            }
        } else {
            assert(p != i);
            if p < i {
                lemma_entry_decides(s, p);
            } else {
                lemma_entry_decides(s, p - 1);
            }
        }
    }
    assert(entries_map(t) =~= entries_map(s).insert(agent, value));
}

/// Removing the entry of index `i` drops its key's binding and no other.
proof fn lemma_remove_at<V>(s: Seq<(AgentId, V)>, i: int, agent: AgentId)
    requires
        strictly_sorted(s),
        0 <= i < s.len(),
        s[i].0 == agent,
    ensures
        strictly_sorted(s.remove(i)),
        entries_map(s.remove(i)) == entries_map(s).remove(agent),
{
    let t = s.remove(i);
    assert(t.len() == s.len() - 1);
    assert forall|j: int| 0 <= j < t.len() implies #[trigger] t[j] == (if j < i {
        s[j]
    } else {
        s[j + 1]
    }) by {
    }
    assert forall|p: int, q: int| 0 <= p < q < t.len() implies t[p].0.0 < t[q].0.0 by {
    }
    assert forall|k: AgentId| #[trigger] entries_map(t).contains_key(k)
        <==> entries_map(s).remove(agent).contains_key(k) by {
        if entries_map(t).contains_key(k) {
            let p = choose|p: int| 0 <= p < t.len() && t[p].0 == k;
            if p < i {
                assert(0 <= p < s.len() && s[p].0 == k);
                assert(s[p].0.0 < s[i].0.0);
            } else {
                assert(0 <= p + 1 < s.len() && s[p + 1].0 == k);
                assert(s[i].0.0 < s[p + 1].0.0);
            }
        }
        if entries_map(s).remove(agent).contains_key(k) {
            let p = choose|p: int| 0 <= p < s.len() && s[p].0 == k;
            assert(p != i);
            if p < i {
                assert(0 <= p < t.len() && t[p].0 == k);
            } else {
                assert(0 <= p - 1 < t.len() && t[p - 1].0 == k);
            }
        }
    }
    assert forall|k: AgentId| entries_map(t).contains_key(k)
        implies #[trigger] entries_map(t)[k] == entries_map(s).remove(agent)[k] by {
        let p = choose|p: int| 0 <= p < t.len() && t[p].0 == k;
        lemma_entry_decides(t, p);
        if p < i {
            lemma_entry_decides(s, p);
        } else {
            lemma_entry_decides(s, p + 1);
        }
    }
    assert(entries_map(t) =~= entries_map(s).remove(agent));
}

/// Two strictly sorted entry sequences describing the same mathematical map
/// are the same sequence: the sorted form is canonical.
pub proof fn lemma_equal_maps_equal_entries<V>(s1: Seq<(AgentId, V)>, s2: Seq<(AgentId, V)>)
    requires
        strictly_sorted(s1),
        strictly_sorted(s2),
        entries_map(s1) == entries_map(s2),
    ensures
        s1 == s2,
    decreases s1.len(),
{
    if s1.len() == 0 && s2.len() == 0 {
        assert(s1 =~= s2);
    } else if s1.len() == 0 {
        lemma_entry_decides(s2, 0);
        assert(entries_map(s1).contains_key(s2[0].0));
        let j = choose|j: int| 0 <= j < s1.len() && s1[j].0 == s2[0].0;
        assert(false);
    } else if s2.len() == 0 {
        lemma_entry_decides(s1, 0);
        assert(entries_map(s2).contains_key(s1[0].0));
        let j = choose|j: int| 0 <= j < s2.len() && s2[j].0 == s1[0].0;
        assert(false);
    } else {
        let l1 = s1.len() - 1;
        let l2 = s2.len() - 1;
        let k1 = s1[l1].0;
        let k2 = s2[l2].0;
        lemma_entry_decides(s1, l1);
        lemma_entry_decides(s2, l2);
        assert(entries_map(s2).contains_key(k1));
        let j1 = choose|j: int| 0 <= j < s2.len() && s2[j].0 == k1;
        assert(k1.0 <= k2.0) by {
            if j1 < l2 {
                assert(s2[j1].0.0 < s2[l2].0.0);
            }
        }
        assert(entries_map(s1).contains_key(k2));
        let j2 = choose|j: int| 0 <= j < s1.len() && s1[j].0 == k2;
        assert(k2.0 <= k1.0) by {
            if j2 < l1 {
                assert(s1[j2].0.0 < s1[l1].0.0);
            }
        }
        assert(k1 == k2);
        assert(entries_map(s1)[k1] == s1[l1].1);
        assert(entries_map(s2)[k1] == s2[l2].1);
        assert(s1[l1] == s2[l2]);
        lemma_remove_at(s1, l1, k1);
        lemma_remove_at(s2, l2, k1);
        assert(s1.remove(l1) =~= s1.drop_last());
        assert(s2.remove(l2) =~= s2.drop_last());
        lemma_equal_maps_equal_entries(s1.remove(l1), s2.remove(l2));
        assert(l1 == l2);
        assert forall|i: int| 0 <= i < s1.len() implies s1[i] == s2[i] by {
            if i < l1 {
                assert(s1.remove(l1)[i] == s2.remove(l2)[i]);
            }
        }
        assert(s1 =~= s2);
    }
}

} // verus!
