//! Configuration handed to a ledger when it is built.

use vstd::prelude::*;

verus! {

/// The score given to a newly met local peer, and the number of neighbours
/// that the ledger should expect. The number is a hint for sizing, no limit.
#[derive(Copy, Debug, PartialEq, Eq, PartialOrd, Ord)]
pub struct RustyPeerConfig<V: Copy> {
    init_trust: V,
    n_neighbors: usize,
}

impl<V: Copy> RustyPeerConfig<V> {
    /// The initial score, as a specification value.
    pub closed spec fn spec_init_trust(&self) -> V {
        self.init_trust
    }

    /// The neighbour hint, as a specification value.
    pub closed spec fn spec_n_neighbors(&self) -> usize {
        self.n_neighbors
    }

    /// Builds a configuration from the two values, which are taken as they
    /// are: any score and any count, zero included.
    pub fn new(init_trust: V, n_neighbors: usize) -> (config: RustyPeerConfig<V>)
        ensures
            config.spec_init_trust() == init_trust,
            config.spec_n_neighbors() == n_neighbors,
    {
        RustyPeerConfig { init_trust, n_neighbors }
    }

    /// The score that a newly met local peer receives.
    #[verifier::when_used_as_spec(spec_init_trust)]
    pub fn init_trust(&self) -> (score: V)
        ensures
            score == self.spec_init_trust(),
    {
        self.init_trust
    }

    /// The number of neighbours to size the tables for.
    #[verifier::when_used_as_spec(spec_n_neighbors)]
    pub fn n_neighbors(&self) -> (count: usize)
        ensures
            count == self.spec_n_neighbors(),
    {
        self.n_neighbors
    }
}

impl<V: Copy> Clone for RustyPeerConfig<V> {
    /// The same configuration.
    fn clone(&self) -> (copy: Self)
        ensures
            copy == *self,
    {
        *self
    }
}

} // verus!
