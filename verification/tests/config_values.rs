use rusty_peer::config::RustyPeerConfig;

#[test]
fn config_keeps_both_values() {
    let config = RustyPeerConfig::new(7i64, 12);
    assert_eq!(config.init_trust(), 7);
    assert_eq!(config.n_neighbors(), 12);
}

#[test]
fn config_accepts_zero_neighbors_and_negative_trust() {
    let config = RustyPeerConfig::new(-3i64, 0);
    assert_eq!(config.init_trust(), -3);
    assert_eq!(config.n_neighbors(), 0);
}

#[test]
fn config_is_generic_over_the_score() {
    let small = RustyPeerConfig::new(200u8, 1);
    assert_eq!(small.init_trust(), 200u8);
    let flag = RustyPeerConfig::new(true, usize::MAX);
    assert!(flag.init_trust());
    assert_eq!(flag.n_neighbors(), usize::MAX);
}

#[test]
fn config_copies_compare_equal() {
    let config = RustyPeerConfig::new(5i64, 3);
    let copy = config;
    assert_eq!(config, copy);
    assert_eq!(config.clone(), config);
    assert_ne!(config, RustyPeerConfig::new(5i64, 4));
    assert!(RustyPeerConfig::new(1i64, 9) < RustyPeerConfig::new(2i64, 0));
}
