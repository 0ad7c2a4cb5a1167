use ballot_tally::registry::{Registry, RegisterOutcome};
use ballot_tally::distributor::PublicKeyDistributor;
use ballot_tally::tally::Tally;

#[test]
fn reregistration_returns_first_voter_id() {
    let mut registry = Registry::new();
    let first = registry.register("BE-001".to_string(), "key-one".to_string());
    assert_eq!(first, RegisterOutcome::Registered(0));
    let second = registry.register("BE-001".to_string(), "key-two".to_string());
    assert_eq!(second, RegisterOutcome::AlreadyRegistered(0));
    // The key recorded first stays.
    assert_eq!(registry.lookup(0).unwrap(), "key-one");
}

#[test]
fn voter_ids_are_assigned_in_order() {
    let mut registry = Registry::new();
    assert_eq!(
        registry.register("BE-001".to_string(), "k1".to_string()),
        RegisterOutcome::Registered(0)
    );
    assert_eq!(
        registry.register("BE-002".to_string(), "k2".to_string()),
        RegisterOutcome::Registered(1)
    );
    assert_eq!(registry.lookup(1).unwrap(), "k2");
}

#[test]
fn identity_without_prefix_is_rejected() {
    let mut registry = Registry::new();
    assert_eq!(
        registry.register("XX-001".to_string(), "k".to_string()),
        RegisterOutcome::InvalidIdentity
    );
    assert_eq!(
        registry.register("BE".to_string(), "k".to_string()),
        RegisterOutcome::InvalidIdentity
    );
    assert!(registry.lookup(0).is_none());
}

#[test]
fn lookup_of_unknown_voter_fails() {
    let mut registry = Registry::new();
    registry.register("BE-001".to_string(), "k1".to_string());
    assert!(registry.lookup(1).is_none());
    assert!(registry.lookup(u64::MAX).is_none());
}

#[test]
fn public_key_is_served_verbatim() {
    let material = "-----BEGIN PGP PUBLIC KEY BLOCK-----\n...\n-----END-----\n".to_string();
    let distributor = PublicKeyDistributor::new(material.clone());
    assert_eq!(distributor.get_public_key(), material);
}

#[test]
fn tally_increment_returns_post_increment_count() {
    let mut tally = Tally::new();
    let party = "Reform".to_string();
    let candidate = "A. Smith".to_string();
    assert_eq!(tally.get(&party, &candidate), 0);
    assert_eq!(tally.increment(&party, &candidate), 1);
    assert_eq!(tally.increment(&party, &candidate), 2);
    assert_eq!(tally.get(&party, &candidate), 2);

    let snap = tally.snapshot();
    tally.increment(&party, &candidate);
    assert_eq!(snap.get(&party, &candidate), 2);
    assert_eq!(tally.get(&party, &candidate), 3);
}
