use rusty_peer::config::RustyPeerConfig;
use rusty_peer::peer::RustyPeer;
use rusty_peer::trust::{accumulate, normalize, NormalizedTrust};
use std::collections::HashMap;

fn quotient(share: &NormalizedTrust) -> f64 {
    share.score as f64 / share.total as f64
}

fn ledger(init_trust: i64, n_neighbors: usize) -> RustyPeer<&'static str> {
    RustyPeer::new(RustyPeerConfig::new(init_trust, n_neighbors))
}

#[test]
fn new_ledger_holds_no_peer() {
    let peer = ledger(1, 2);
    assert_eq!(peer.get_local_trust(&"A"), None);
    assert_eq!(peer.get_global_trust(&"A"), None);
    assert_eq!(peer.get_normalized_local_trust(&"A"), None);
    assert_eq!(peer.get_normalized_global_trust(&"A"), None);
}

#[test]
fn init_then_update_gives_two_thirds_and_one_third() {
    let mut peer = ledger(1, 2);
    peer.init_local_trust("A");
    peer.init_local_trust("B");
    assert_eq!(peer.get_local_trust(&"A"), Some(&1));
    assert_eq!(peer.get_local_trust(&"B"), Some(&1));

    peer.update_local_trust(&"A", 1);
    assert_eq!(peer.get_local_trust(&"A"), Some(&2));
    assert_eq!(peer.get_local_trust(&"B"), Some(&1));
    assert_eq!(
        peer.get_normalized_local_trust(&"A"),
        Some(&NormalizedTrust { score: 2, total: 3 })
    );
    assert_eq!(
        peer.get_normalized_local_trust(&"B"),
        Some(&NormalizedTrust { score: 1, total: 3 })
    );
    let a = quotient(peer.get_normalized_local_trust(&"A").unwrap());
    let b = quotient(peer.get_normalized_local_trust(&"B").unwrap());
    assert!((a - 2.0 / 3.0).abs() < 1e-12);
    assert!((b - 1.0 / 3.0).abs() < 1e-12);
}

#[test]
fn zero_total_gives_not_a_number() {
    let mut peer = ledger(1, 2);
    peer.init_global_trust("X", 0);
    peer.update_global_trust(&"X", 0);
    assert_eq!(peer.get_global_trust(&"X"), Some(&0));
    let share = *peer.get_normalized_global_trust(&"X").unwrap();
    assert_eq!(share, NormalizedTrust { score: 0, total: 0 });
    assert!(quotient(&share).is_nan());
}

#[test]
fn scores_that_cancel_give_infinite_quotients() {
    let mut peer = ledger(1, 2);
    peer.init_global_trust("P", 4);
    peer.init_global_trust("N", -4);
    peer.update_global_trust(&"P", 0);
    let p = *peer.get_normalized_global_trust(&"P").unwrap();
    let n = *peer.get_normalized_global_trust(&"N").unwrap();
    assert_eq!(p, NormalizedTrust { score: 4, total: 0 });
    assert_eq!(n, NormalizedTrust { score: -4, total: 0 });
    assert_eq!(quotient(&p), f64::INFINITY);
    assert_eq!(quotient(&n), f64::NEG_INFINITY);
}

#[test]
fn update_of_unknown_peer_on_fresh_ledger_adds_nothing() {
    let mut peer = ledger(1, 2);
    peer.update_local_trust(&"Z", 5);
    assert_eq!(peer.get_local_trust(&"Z"), None);
    assert_eq!(peer.get_normalized_local_trust(&"Z"), None);
    assert_eq!(peer.get_global_trust(&"Z"), None);
    assert_eq!(peer.get_normalized_global_trust(&"Z"), None);
}

#[test]
fn shares_of_positive_scores_sum_to_one() {
    let mut peer = ledger(3, 4);
    let names = ["A", "B", "C", "D", "E"];
    for name in names {
        peer.init_local_trust(name);
    }
    peer.update_local_trust(&"A", 4);
    peer.update_local_trust(&"C", 10);
    peer.update_local_trust(&"E", 1);
    let mut sum = 0.0f64;
    let mut numerators: i128 = 0;
    for name in names {
        let share = peer.get_normalized_local_trust(&name).unwrap();
        assert_eq!(share.total, 30);
        numerators += share.score as i128;
        sum += quotient(share);
    }
    assert_eq!(numerators, 30);
    assert!((sum - 1.0).abs() < 1e-9);
}

#[test]
fn init_local_twice_is_init_once() {
    let mut once = ledger(6, 1);
    once.init_local_trust("A");
    let mut twice = ledger(6, 1);
    twice.init_local_trust("A");
    twice.init_local_trust("A");
    assert_eq!(once.get_local_trust(&"A"), Some(&6));
    assert_eq!(twice.get_local_trust(&"A"), Some(&6));
}

#[test]
fn init_local_does_not_overwrite_an_updated_score() {
    let mut peer = ledger(6, 1);
    peer.init_local_trust("A");
    peer.update_local_trust(&"A", -2);
    peer.init_local_trust("A");
    assert_eq!(peer.get_local_trust(&"A"), Some(&4));
}

#[test]
fn init_global_keeps_the_first_score() {
    let mut peer = ledger(1, 1);
    peer.init_global_trust("G", 10);
    peer.init_global_trust("G", 99);
    assert_eq!(peer.get_global_trust(&"G"), Some(&10));
    assert_eq!(peer.get_local_trust(&"G"), None);
}

#[test]
fn initializers_leave_the_shares_alone() {
    let mut peer = ledger(2, 2);
    peer.init_local_trust("A");
    peer.init_global_trust("A", 5);
    assert_eq!(peer.get_normalized_local_trust(&"A"), None);
    assert_eq!(peer.get_normalized_global_trust(&"A"), None);
    peer.update_local_trust(&"A", 0);
    peer.init_local_trust("B");
    assert_eq!(
        peer.get_normalized_local_trust(&"A"),
        Some(&NormalizedTrust { score: 2, total: 2 })
    );
    assert_eq!(peer.get_normalized_local_trust(&"B"), None);
}

#[test]
fn update_of_unknown_peer_keeps_scores_and_recomputes_shares() {
    let mut peer = ledger(1, 2);
    peer.init_local_trust("A");
    peer.init_local_trust("B");
    peer.update_local_trust(&"Z", 5);
    assert_eq!(peer.get_local_trust(&"A"), Some(&1));
    assert_eq!(peer.get_local_trust(&"B"), Some(&1));
    assert_eq!(peer.get_local_trust(&"Z"), None);
    assert_eq!(
        peer.get_normalized_local_trust(&"A"),
        Some(&NormalizedTrust { score: 1, total: 2 })
    );
    assert_eq!(
        peer.get_normalized_local_trust(&"B"),
        Some(&NormalizedTrust { score: 1, total: 2 })
    );
    assert_eq!(peer.get_normalized_local_trust(&"Z"), None);
}

#[test]
fn shares_have_the_peers_of_the_scores_after_an_update() {
    let mut peer = ledger(1, 2);
    peer.init_global_trust("A", 1);
    peer.update_global_trust(&"A", 1);
    peer.init_global_trust("B", 2);
    peer.init_global_trust("C", 4);
    assert!(peer.get_normalized_global_trust(&"B").is_none());
    peer.update_global_trust(&"B", 0);
    for name in ["A", "B", "C"] {
        assert!(peer.get_global_trust(&name).is_some());
        assert_eq!(peer.get_normalized_global_trust(&name).unwrap().total, 8);
    }
    assert!(peer.get_normalized_global_trust(&"D").is_none());
    assert!(peer.get_normalized_local_trust(&"A").is_none());
}

#[test]
fn update_global_changes_the_global_pair_only() {
    let mut peer = ledger(1, 2);
    peer.init_local_trust("A");
    peer.init_global_trust("A", 10);
    peer.update_global_trust(&"A", 5);
    assert_eq!(peer.get_global_trust(&"A"), Some(&15));
    assert_eq!(peer.get_local_trust(&"A"), Some(&1));
    assert_eq!(
        peer.get_normalized_global_trust(&"A"),
        Some(&NormalizedTrust { score: 15, total: 15 })
    );
    assert_eq!(peer.get_normalized_local_trust(&"A"), None);
}

#[test]
fn update_stops_at_the_ends_of_the_range() {
    let mut peer = ledger(i64::MAX - 1, 1);
    peer.init_local_trust("A");
    peer.update_local_trust(&"A", 5);
    assert_eq!(peer.get_local_trust(&"A"), Some(&i64::MAX));
    peer.init_global_trust("B", i64::MIN + 1);
    peer.update_global_trust(&"B", -5);
    assert_eq!(peer.get_global_trust(&"B"), Some(&i64::MIN));
}

#[test]
fn accumulate_adds_or_saturates() {
    assert_eq!(accumulate(2, 3), 5);
    assert_eq!(accumulate(2, -3), -1);
    assert_eq!(accumulate(i64::MAX, 1), i64::MAX);
    assert_eq!(accumulate(i64::MIN, -1), i64::MIN);
    assert_eq!(accumulate(i64::MAX, i64::MIN), -1);
}

#[test]
fn total_of_large_scores_is_exact() {
    let mut peer = ledger(i64::MAX, 2);
    peer.init_local_trust("A");
    peer.init_local_trust("B");
    peer.update_local_trust(&"A", 0);
    let share = peer.get_normalized_local_trust(&"A").unwrap();
    assert_eq!(share.score, i64::MAX);
    assert_eq!(share.total, 2 * (i64::MAX as i128));
}

#[test]
fn get_mut_raw_writes_in_place_without_recomputing() {
    let mut peer = ledger(1, 2);
    peer.init_local_trust("A");
    peer.init_global_trust("A", 3);
    peer.update_local_trust(&"A", 0);
    peer.update_global_trust(&"A", 0);
    *peer.get_mut_local_trust(&"A").unwrap() = 40;
    *peer.get_mut_global_trust(&"A").unwrap() += 4;
    assert_eq!(peer.get_local_trust(&"A"), Some(&40));
    assert_eq!(peer.get_global_trust(&"A"), Some(&7));
    assert_eq!(
        peer.get_normalized_local_trust(&"A"),
        Some(&NormalizedTrust { score: 1, total: 1 })
    );
    assert_eq!(
        peer.get_normalized_global_trust(&"A"),
        Some(&NormalizedTrust { score: 3, total: 3 })
    );
    assert!(peer.get_mut_local_trust(&"B").is_none());
    assert!(peer.get_mut_global_trust(&"B").is_none());
    assert_eq!(peer.get_local_trust(&"B"), None);
}

#[test]
fn get_mut_normalized_writes_until_the_next_update() {
    let mut peer = ledger(1, 2);
    peer.init_local_trust("A");
    peer.init_global_trust("A", 3);
    peer.update_local_trust(&"A", 0);
    peer.update_global_trust(&"A", 0);
    peer.get_mut_normalized_local_trust(&"A").unwrap().total = 50;
    *peer.get_mut_normalized_global_trust(&"A").unwrap() = NormalizedTrust { score: 9, total: 9 };
    assert_eq!(
        peer.get_normalized_local_trust(&"A"),
        Some(&NormalizedTrust { score: 1, total: 50 })
    );
    assert_eq!(
        peer.get_normalized_global_trust(&"A"),
        Some(&NormalizedTrust { score: 9, total: 9 })
    );
    assert!(peer.get_mut_normalized_local_trust(&"B").is_none());
    assert!(peer.get_mut_normalized_global_trust(&"B").is_none());
    peer.update_local_trust(&"A", 1);
    assert_eq!(
        peer.get_normalized_local_trust(&"A"),
        Some(&NormalizedTrust { score: 2, total: 2 })
    );
}

#[test]
fn normalize_brings_the_shares_up_to_date() {
    let mut peer = ledger(1, 2);
    peer.init_local_trust("A");
    peer.init_local_trust("B");
    peer.init_global_trust("G", 5);
    *peer.get_mut_local_trust(&"B").unwrap() = 3;
    peer.normalize_local_trust();
    assert_eq!(
        peer.get_normalized_local_trust(&"A"),
        Some(&NormalizedTrust { score: 1, total: 4 })
    );
    assert_eq!(
        peer.get_normalized_local_trust(&"B"),
        Some(&NormalizedTrust { score: 3, total: 4 })
    );
    assert_eq!(peer.get_normalized_global_trust(&"G"), None);
    peer.normalize_global_trust();
    assert_eq!(
        peer.get_normalized_global_trust(&"G"),
        Some(&NormalizedTrust { score: 5, total: 5 })
    );
}

#[test]
fn normalize_of_a_table() {
    let mut scores: HashMap<u64, i64> = HashMap::new();
    assert!(normalize(&scores).is_empty());
    scores.insert(1, 5);
    scores.insert(2, -2);
    scores.insert(3, 7);
    let shares = normalize(&scores);
    assert_eq!(shares.len(), 3);
    assert_eq!(shares[&1], NormalizedTrust { score: 5, total: 10 });
    assert_eq!(shares[&2], NormalizedTrust { score: -2, total: 10 });
    assert_eq!(shares[&3], NormalizedTrust { score: 7, total: 10 });
}

#[test]
fn ledger_with_integer_identifiers() {
    let mut peer: RustyPeer<u64> = RustyPeer::new(RustyPeerConfig::new(2, 0));
    peer.init_local_trust(10);
    peer.init_local_trust(20);
    peer.update_local_trust(&20, 4);
    assert_eq!(peer.get_local_trust(&10), Some(&2));
    assert_eq!(peer.get_local_trust(&20), Some(&6));
    assert_eq!(
        peer.get_normalized_local_trust(&20),
        Some(&NormalizedTrust { score: 6, total: 8 })
    );
}

#[test]
fn clone_of_a_ledger_is_independent() {
    let mut peer = ledger(1, 2);
    peer.init_local_trust("A");
    let copy = peer.clone();
    peer.update_local_trust(&"A", 1);
    assert_eq!(peer.get_local_trust(&"A"), Some(&2));
    assert_eq!(copy.get_local_trust(&"A"), Some(&1));
}
