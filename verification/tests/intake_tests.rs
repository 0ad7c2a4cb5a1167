use ballot_tally::ballot::{Outcome, VoteError};
use ballot_tally::intake::Intake;

fn ballot_text(nonce: u64, candidate: &str, party: &str) -> String {
    format!(
        "{{\"nonce\":{},\"vote\":{{\"name\":\"{}\",\"party\":\"{}\"}}}}",
        nonce, candidate, party
    )
}

#[test]
fn first_submission_counts_resubmission_does_not() {
    let mut intake = Intake::new();
    let text = ballot_text(42, "A. Smith", "Reform");
    let party = "Reform".to_string();
    let candidate = "A. Smith".to_string();

    let first = intake.submit(Some(text.as_str()));
    assert_eq!(first, Outcome::Counted);
    assert_eq!(intake.current_count(&party, &candidate), 1);

    let second = intake.submit(Some(text.as_str()));
    assert_eq!(second, Outcome::RejectedDuplicate);
    assert_eq!(intake.current_count(&party, &candidate), 1);
}

#[test]
fn two_distinct_nonces_count_twice() {
    let mut intake = Intake::new();
    let party = "Reform".to_string();
    let candidate = "A. Smith".to_string();

    let a = intake.submit(Some(ballot_text(1, "A. Smith", "Reform").as_str()));
    let b = intake.submit(Some(ballot_text(2, "A. Smith", "Reform").as_str()));
    assert_eq!(a, Outcome::Counted);
    assert_eq!(b, Outcome::Counted);
    assert_eq!(intake.current_count(&party, &candidate), 2);
    assert!(intake.seen_nonce(1));
    assert!(intake.seen_nonce(2));
    assert!(!intake.seen_nonce(3));
}

#[test]
fn malformed_plaintext_is_a_no_op() {
    let mut intake = Intake::new();
    let party = "Reform".to_string();
    let candidate = "A. Smith".to_string();
    assert_eq!(intake.submit(Some(ballot_text(7, "A. Smith", "Reform").as_str())), Outcome::Counted);

    let before = intake.snapshot();
    let outcome = intake.submit(Some("{\"nonce\":8,\"vote\":oops"));
    assert_eq!(outcome, Outcome::RejectedInvalid(VoteError::MalformedPayload));
    assert!(!intake.seen_nonce(8));
    let after = intake.snapshot();
    assert_eq!(before.get(&party, &candidate), after.get(&party, &candidate));
    assert_eq!(intake.current_count(&party, &candidate), 1);
}

#[test]
fn failed_decryption_is_a_no_op() {
    let mut intake = Intake::new();
    let party = "Reform".to_string();
    let candidate = "A. Smith".to_string();
    let outcome = intake.submit(None);
    assert_eq!(outcome, Outcome::RejectedInvalid(VoteError::DecryptionFailed));
    assert_eq!(intake.current_count(&party, &candidate), 0);
}

#[test]
fn ten_thousand_distinct_ballots_all_count() {
    let mut intake = Intake::new();
    let party = "Reform".to_string();
    let candidate = "A. Smith".to_string();
    for nonce in 0..10_000u64 {
        let outcome = intake.submit(Some(ballot_text(nonce, "A. Smith", "Reform").as_str()));
        assert_eq!(outcome, Outcome::Counted);
    }
    assert_eq!(intake.current_count(&party, &candidate), 10_000);
}

#[test]
fn snapshot_is_unaffected_by_later_increments() {
    let mut intake = Intake::new();
    let party = "Reform".to_string();
    let candidate = "A. Smith".to_string();
    assert_eq!(intake.submit(Some(ballot_text(1, "A. Smith", "Reform").as_str())), Outcome::Counted);

    let snap = intake.snapshot();
    assert_eq!(intake.submit(Some(ballot_text(2, "A. Smith", "Reform").as_str())), Outcome::Counted);
    assert_eq!(snap.get(&party, &candidate), 1);
    assert_eq!(intake.current_count(&party, &candidate), 2);
}

#[test]
fn votes_for_different_pairs_do_not_mix() {
    let mut intake = Intake::new();
    assert_eq!(intake.submit(Some(ballot_text(1, "A. Smith", "Reform").as_str())), Outcome::Counted);
    assert_eq!(intake.submit(Some(ballot_text(2, "B. Jones", "Reform").as_str())), Outcome::Counted);
    assert_eq!(intake.submit(Some(ballot_text(3, "A. Smith", "Unity").as_str())), Outcome::Counted);

    let reform = "Reform".to_string();
    let unity = "Unity".to_string();
    let smith = "A. Smith".to_string();
    let jones = "B. Jones".to_string();
    assert_eq!(intake.current_count(&reform, &smith), 1);
    assert_eq!(intake.current_count(&reform, &jones), 1);
    assert_eq!(intake.current_count(&unity, &smith), 1);
    assert_eq!(intake.current_count(&unity, &jones), 0);
}
