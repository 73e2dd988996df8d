use vstd::prelude::*;

verus! {

/// Opaque, totally ordered, copyable identifier of a participant in the
/// modeled domain. Used as a map key throughout the crate; the order on the
/// wrapped integer gives deterministic iteration and canonical hashing.
#[derive(Clone, Copy, Debug, PartialEq, Eq, Structural, Hash)]
pub struct AgentId(pub u32);

/// Copyable scalar utility value of one agent at one node. Stored, never
/// derived, inside a node once computed.
#[derive(Clone, Copy, Debug, PartialEq, Eq, Structural, Hash)]
pub struct AgentValue(pub i64);

impl AgentValue {
    /// Strict order on values, as needed for best-child comparisons by a
    /// search driver.
    pub fn less_than(&self, other: &AgentValue) -> (r: bool)
        ensures
            r == (self.0 < other.0),
    {
        self.0 < other.0
    }
}

} // verus!
