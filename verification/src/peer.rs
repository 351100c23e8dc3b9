//! The trust ledger of one node.

use crate::config::RustyPeerConfig;
use crate::trust::{
    accumulate, initialized, is_normalization_of, lemma_shares_sum_to_one, normalize, score_sum,
    total_trust, updated, NormalizedTrust,
};
use std::collections::hash_map::Entry;
use std::collections::HashMap;
use std::hash::Hash;
use vstd::prelude::*;
use vstd::std_specs::hash::obeys_key_model;

verus! {

/// What a node knows of its peers: a raw score for each local peer and for
/// each peer of the wider network, and for both tables the shares that were
/// computed at the last update.
///
/// The shares are derived from the raw scores. An update of a table brings
/// its shares up to date; meeting a new peer, or writing through one of the
/// mutable accessors, does not.
#[derive(Debug)]
pub struct RustyPeer<K> {
    local_trust: HashMap<K, i64>,
    global_trust: HashMap<K, i64>,
    normalized_local_trust: HashMap<K, NormalizedTrust>,
    normalized_global_trust: HashMap<K, NormalizedTrust>,
    rp_config: RustyPeerConfig<i64>,
}

impl<K: Copy + Eq + Hash> RustyPeer<K> {
    /// The raw scores of the local peers.
    pub closed spec fn local(&self) -> Map<K, i64> {
        self.local_trust@
    }

    /// The raw scores of the peers of the wider network.
    pub closed spec fn global(&self) -> Map<K, i64> {
        self.global_trust@
    }

    /// The shares of the local peers, as last computed.
    pub closed spec fn normalized_local(&self) -> Map<K, NormalizedTrust> {
        self.normalized_local_trust@
    }

    /// The shares of the peers of the wider network, as last computed.
    pub closed spec fn normalized_global(&self) -> Map<K, NormalizedTrust> {
        self.normalized_global_trust@
    }

    /// The configuration that the ledger was built with.
    pub closed spec fn config(&self) -> RustyPeerConfig<i64> {
        self.rp_config
    }

    /// A ledger without peers, which keeps `rp_config`.
    pub fn new(rp_config: RustyPeerConfig<i64>) -> (peer: Self)
        ensures
            peer.local() == Map::<K, i64>::empty(),
            peer.global() == Map::<K, i64>::empty(),
            peer.normalized_local() == Map::<K, NormalizedTrust>::empty(),
            peer.normalized_global() == Map::<K, NormalizedTrust>::empty(),
            peer.config() == rp_config,
    {
        RustyPeer {
            local_trust: HashMap::with_capacity(rp_config.n_neighbors()),
            global_trust: HashMap::with_capacity(rp_config.n_neighbors()),
            normalized_local_trust: HashMap::with_capacity(rp_config.n_neighbors()),
            normalized_global_trust: HashMap::with_capacity(rp_config.n_neighbors()),
            rp_config,
        }
    }

    /// Meets a local peer: a new one enters with the configured initial
    /// score, a known one keeps what it has. The shares are left as they are.
    pub fn init_local_trust(&mut self, node_id: K)
        requires
            obeys_key_model::<K>(),
        ensures
            final(self).local() == initialized(
                old(self).local(),
                node_id,
                old(self).config().init_trust(),
            ),
            final(self).global() == old(self).global(),
            final(self).normalized_local() == old(self).normalized_local(),
            final(self).normalized_global() == old(self).normalized_global(),
            final(self).config() == old(self).config(),
    {
        broadcast use vstd::std_specs::hash::group_hash_axioms;

        let init_trust = self.rp_config.init_trust();
        self.local_trust.entry(node_id).or_insert(init_trust);
    }

    /// Meets a peer of the wider network: a new one enters with
    /// `init_trust_delta`, a known one keeps what it has. The shares are left
    /// as they are.
    pub fn init_global_trust(&mut self, node_id: K, init_trust_delta: i64)
        requires
            obeys_key_model::<K>(),
        ensures
            final(self).global() == initialized(old(self).global(), node_id, init_trust_delta),
            final(self).local() == old(self).local(),
            final(self).normalized_local() == old(self).normalized_local(),
            final(self).normalized_global() == old(self).normalized_global(),
            final(self).config() == old(self).config(),
    {
        broadcast use vstd::std_specs::hash::group_hash_axioms;

        self.global_trust.entry(node_id).or_insert(init_trust_delta);
    }

    /// The raw score of a local peer, if the ledger holds one.
    pub fn get_local_trust(&self, node_id: &K) -> (score: Option<&i64>)
        requires
            obeys_key_model::<K>(),
        ensures
            score == (if self.local().contains_key(*node_id) {
                Some(&self.local()[*node_id])
            } else {
                None
            }),
    {
        broadcast use vstd::std_specs::hash::group_hash_axioms;

        self.local_trust.get(node_id)
    }

    /// The raw score of a peer of the wider network, if the ledger holds one.
    pub fn get_global_trust(&self, node_id: &K) -> (score: Option<&i64>)
        requires
            obeys_key_model::<K>(),
        ensures
            score == (if self.global().contains_key(*node_id) {
                Some(&self.global()[*node_id])
            } else {
                None
            }),
    {
        broadcast use vstd::std_specs::hash::group_hash_axioms;

        self.global_trust.get(node_id)
    }

    /// The share of a local peer as last computed, if there is one.
    pub fn get_normalized_local_trust(&self, node_id: &K) -> (share: Option<&NormalizedTrust>)
        requires
            obeys_key_model::<K>(),
        ensures
            share == (if self.normalized_local().contains_key(*node_id) {
                Some(&self.normalized_local()[*node_id])
            } else {
                None
            }),
    {
        broadcast use vstd::std_specs::hash::group_hash_axioms;

        self.normalized_local_trust.get(node_id)
    }

    /// The share of a peer of the wider network as last computed, if there
    /// is one.
    pub fn get_normalized_global_trust(&self, node_id: &K) -> (share: Option<&NormalizedTrust>)
        requires
            obeys_key_model::<K>(),
        ensures
            share == (if self.normalized_global().contains_key(*node_id) {
                Some(&self.normalized_global()[*node_id])
            } else {
                None
            }),
    {
        broadcast use vstd::std_specs::hash::group_hash_axioms;

        self.normalized_global_trust.get(node_id)
    }

    /// The raw score of a local peer, to be written in place. What is written
    /// becomes the peer's score; the shares do not follow it until the next
    /// `update_local_trust` or `normalize_local_trust`.
    pub fn get_mut_local_trust(&mut self, node_id: &K) -> (score: Option<&mut i64>)
        requires
            obeys_key_model::<K>(),
        ensures
            match score {
                Some(slot) => {
                    &&& old(self).local().contains_key(*node_id)
                    &&& *slot == old(self).local()[*node_id]
                    &&& final(self).local() == old(self).local().insert(*node_id, *final(slot))
                },
                None => {
                    &&& !old(self).local().contains_key(*node_id)
                    &&& final(self).local() == old(self).local()
                },
            },
            final(self).global() == old(self).global(),
            final(self).normalized_local() == old(self).normalized_local(),
            final(self).normalized_global() == old(self).normalized_global(),
            final(self).config() == old(self).config(),
    {
        broadcast use vstd::std_specs::hash::group_hash_axioms;

        match self.local_trust.entry(*node_id) {
            Entry::Occupied(held) => Some(held.into_mut()),
            Entry::Vacant(_) => None,
        }
    }

    /// The raw score of a peer of the wider network, to be written in place.
    /// What is written becomes the peer's score; the shares do not follow it
    /// until the next `update_global_trust` or `normalize_global_trust`.
    pub fn get_mut_global_trust(&mut self, node_id: &K) -> (score: Option<&mut i64>)
        requires
            obeys_key_model::<K>(),
        ensures
            match score {
                Some(slot) => {
                    &&& old(self).global().contains_key(*node_id)
                    &&& *slot == old(self).global()[*node_id]
                    &&& final(self).global() == old(self).global().insert(*node_id, *final(slot))
                },
                None => {
                    &&& !old(self).global().contains_key(*node_id)
                    &&& final(self).global() == old(self).global()
                },
            },
            final(self).local() == old(self).local(),
            final(self).normalized_local() == old(self).normalized_local(),
            final(self).normalized_global() == old(self).normalized_global(),
            final(self).config() == old(self).config(),
    {
        broadcast use vstd::std_specs::hash::group_hash_axioms;

        match self.global_trust.entry(*node_id) {
            Entry::Occupied(held) => Some(held.into_mut()),
            Entry::Vacant(_) => None,
        }
    }

    /// The share of a local peer, to be written in place. What is written
    /// stands until the shares are next computed, whatever the raw scores
    /// say.
    pub fn get_mut_normalized_local_trust(&mut self, node_id: &K) -> (share: Option<
        &mut NormalizedTrust,
    >)
        requires
            obeys_key_model::<K>(),
        ensures
            match share {
                Some(slot) => {
                    &&& old(self).normalized_local().contains_key(*node_id)
                    &&& *slot == old(self).normalized_local()[*node_id]
                    &&& final(self).normalized_local() == old(self).normalized_local().insert(
                        *node_id,
                        *final(slot),
                    )
                },
                None => {
                    &&& !old(self).normalized_local().contains_key(*node_id)
                    &&& final(self).normalized_local() == old(self).normalized_local()
                },
            },
            final(self).local() == old(self).local(),
            final(self).global() == old(self).global(),
            final(self).normalized_global() == old(self).normalized_global(),
            final(self).config() == old(self).config(),
    {
        broadcast use vstd::std_specs::hash::group_hash_axioms;

        match self.normalized_local_trust.entry(*node_id) {
            Entry::Occupied(held) => Some(held.into_mut()),
            Entry::Vacant(_) => None,
        }
    }

    /// The share of a peer of the wider network, to be written in place. What
    /// is written stands until the shares are next computed, whatever the raw
    /// scores say.
    pub fn get_mut_normalized_global_trust(&mut self, node_id: &K) -> (share: Option<
        &mut NormalizedTrust,
    >)
        requires
            obeys_key_model::<K>(),
        ensures
            match share {
                Some(slot) => {
                    &&& old(self).normalized_global().contains_key(*node_id)
                    &&& *slot == old(self).normalized_global()[*node_id]
                    &&& final(self).normalized_global() == old(self).normalized_global().insert(
                        *node_id,
                        *final(slot),
                    )
                },
                None => {
                    &&& !old(self).normalized_global().contains_key(*node_id)
                    &&& final(self).normalized_global() == old(self).normalized_global()
                },
            },
            final(self).local() == old(self).local(),
            final(self).global() == old(self).global(),
            final(self).normalized_local() == old(self).normalized_local(),
            final(self).config() == old(self).config(),
    {
        broadcast use vstd::std_specs::hash::group_hash_axioms;

        match self.normalized_global_trust.entry(*node_id) {
            Entry::Occupied(held) => Some(held.into_mut()),
            Entry::Vacant(_) => None,
        }
    }

    /// Computes the shares of the local peers anew from their raw scores and
    /// puts them in place of the old ones.
    pub fn normalize_local_trust(&mut self)
        requires
            obeys_key_model::<K>(),
        ensures
            is_normalization_of(final(self).normalized_local(), final(self).local()),
            final(self).normalized_local().dom() == final(self).local().dom(),
            final(self).local() == old(self).local(),
            final(self).global() == old(self).global(),
            final(self).normalized_global() == old(self).normalized_global(),
            final(self).config() == old(self).config(),
    {
        self.normalized_local_trust = normalize(&self.local_trust);
    }

    /// Computes the shares of the peers of the wider network anew from their
    /// raw scores and puts them in place of the old ones.
    pub fn normalize_global_trust(&mut self)
        requires
            obeys_key_model::<K>(),
        ensures
            is_normalization_of(final(self).normalized_global(), final(self).global()),
            final(self).normalized_global().dom() == final(self).global().dom(),
            final(self).local() == old(self).local(),
            final(self).global() == old(self).global(),
            final(self).normalized_local() == old(self).normalized_local(),
            final(self).config() == old(self).config(),
    {
        self.normalized_global_trust = normalize(&self.global_trust);
    }

    /// Adds `trust_delta` to the raw score of a local peer, then computes the
    /// local shares anew. For a peer that the ledger does not hold, nothing
    /// is added and no peer enters; the shares are computed all the same.
    /// A score stops at the end of its range.
    pub fn update_local_trust(&mut self, node_id: &K, trust_delta: i64)
        requires
            obeys_key_model::<K>(),
        ensures
            final(self).local() == updated(old(self).local(), *node_id, trust_delta),
            !old(self).local().contains_key(*node_id) ==> final(self).local() == old(self).local(),
            is_normalization_of(final(self).normalized_local(), final(self).local()),
            final(self).normalized_local().dom() == final(self).local().dom(),
            final(self).global() == old(self).global(),
            final(self).normalized_global() == old(self).normalized_global(),
            final(self).config() == old(self).config(),
    {
        if let Some(trust_score) = self.get_mut_local_trust(node_id) {
            *trust_score = accumulate(*trust_score, trust_delta);
        }
        self.normalize_local_trust();
    }

    /// Adds `trust_delta` to the raw score of a peer of the wider network,
    /// then computes the global shares anew. For a peer that the ledger does
    /// not hold, nothing is added and no peer enters; the shares are computed
    /// all the same. A score stops at the end of its range.
    pub fn update_global_trust(&mut self, node_id: &K, trust_delta: i64)
        requires
            obeys_key_model::<K>(),
        ensures
            final(self).global() == updated(old(self).global(), *node_id, trust_delta),
            !old(self).global().contains_key(*node_id) ==> final(self).global() == old(
                self,
            ).global(),
            is_normalization_of(final(self).normalized_global(), final(self).global()),
            final(self).normalized_global().dom() == final(self).global().dom(),
            final(self).local() == old(self).local(),
            final(self).normalized_local() == old(self).normalized_local(),
            final(self).config() == old(self).config(),
    {
        if let Some(trust_score) = self.get_mut_global_trust(node_id) {
            *trust_score = accumulate(*trust_score, trust_delta);
        }
        self.normalize_global_trust();
    }

    /// Both tables of raw scores hold finitely many peers.
    pub proof fn lemma_tables_finite(&self)
        ensures
            self.local().dom().finite(),
            self.global().dom().finite(),
    {
        broadcast use vstd::std_specs::hash::group_hash_axioms;

    }

    /// Once the local shares are up to date, as they are after every update
    /// of a local score, and all local scores are positive, the local shares
    /// add up to one: the total is positive, it is the denominator of every
    /// share, and the numerators add up to it. The ledger holds at least one
    /// local peer.
    pub proof fn lemma_local_shares_sum_to_one(&self)
        requires
            is_normalization_of(self.normalized_local(), self.local()),
            self.local().dom().len() > 0,
            forall|peer: K| self.local().contains_key(peer) ==> #[trigger] self.local()[peer] > 0,
        ensures
            total_trust(self.local()) > 0,
            forall|peer: K| #[trigger]
                self.normalized_local().contains_key(peer) ==> self.normalized_local()[peer].total
                    == total_trust(self.local()),
            score_sum(self.normalized_local()) == total_trust(self.local()),
    {
        self.lemma_tables_finite();
        lemma_shares_sum_to_one(self.local(), self.normalized_local());
    }

    /// Once the global shares are up to date, as they are after every update
    /// of a global score, and all global scores are positive, the global
    /// shares add up to one. The ledger holds at least one peer of the wider
    /// network.
    pub proof fn lemma_global_shares_sum_to_one(&self)
        requires
            is_normalization_of(self.normalized_global(), self.global()),
            self.global().dom().len() > 0,
            forall|peer: K|
                self.global().contains_key(peer) ==> #[trigger] self.global()[peer] > 0,
        ensures
            total_trust(self.global()) > 0,
            forall|peer: K| #[trigger]
                self.normalized_global().contains_key(peer) ==> self.normalized_global()[peer].total
                    == total_trust(self.global()),
            score_sum(self.normalized_global()) == total_trust(self.global()),
    {
        self.lemma_tables_finite();
        lemma_shares_sum_to_one(self.global(), self.normalized_global());
    }
}

impl<K: Copy + Eq + Hash> Clone for RustyPeer<K> {
    /// A second ledger with the same tables and configuration.
    fn clone(&self) -> (copy: Self)
        ensures
            copy.local() == self.local(),
            copy.global() == self.global(),
            copy.normalized_local() == self.normalized_local(),
            copy.normalized_global() == self.normalized_global(),
            copy.config() == self.config(),
    {
        RustyPeer {
            local_trust: self.local_trust.clone(),
            global_trust: self.global_trust.clone(),
            normalized_local_trust: self.normalized_local_trust.clone(),
            normalized_global_trust: self.normalized_global_trust.clone(),
            rp_config: self.rp_config,
        }
    }
}

} // verus!
