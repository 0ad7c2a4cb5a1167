use ballot_tally::ballot::VoteError;
use ballot_tally::codec::decode_submission;
use ballot_tally::parse::parse_ballot_text;

#[test]
fn parses_canonical_ballot() {
    let b = parse_ballot_text("{\"nonce\":42,\"vote\":{\"name\":\"A. Smith\",\"party\":\"Reform\"}}")
        .expect("canonical ballot should parse");
    assert_eq!(b.nonce, 42);
    assert_eq!(b.candidate, "A. Smith");
    assert_eq!(b.party, "Reform");
}

#[test]
fn parses_zero_nonce_and_empty_names() {
    let b = parse_ballot_text("{\"nonce\":0,\"vote\":{\"name\":\"\",\"party\":\"\"}}")
        .expect("zero nonce with empty names should parse");
    assert_eq!(b.nonce, 0);
    assert_eq!(b.candidate, "");
    assert_eq!(b.party, "");
}

#[test]
fn parses_largest_nonce() {
    let b = parse_ballot_text(
        "{\"nonce\":18446744073709551615,\"vote\":{\"name\":\"X\",\"party\":\"Y\"}}",
    )
    .expect("largest 64-bit nonce should parse");
    assert_eq!(b.nonce, u64::MAX);
}

#[test]
fn rejects_nonce_overflow() {
    assert!(parse_ballot_text(
        "{\"nonce\":18446744073709551616,\"vote\":{\"name\":\"X\",\"party\":\"Y\"}}"
    )
    .is_none());
}

#[test]
fn rejects_leading_zero_nonce() {
    assert!(parse_ballot_text("{\"nonce\":042,\"vote\":{\"name\":\"X\",\"party\":\"Y\"}}").is_none());
}

#[test]
fn rejects_missing_pieces() {
    assert!(parse_ballot_text("").is_none());
    assert!(parse_ballot_text("{\"nonce\":,\"vote\":{\"name\":\"X\",\"party\":\"Y\"}}").is_none());
    assert!(parse_ballot_text("{\"nonce\":42}").is_none());
    assert!(parse_ballot_text("{\"vote\":{\"name\":\"X\",\"party\":\"Y\"},\"nonce\":42}").is_none());
    assert!(parse_ballot_text("{\"nonce\":42,\"vote\":{\"name\":\"X\",\"party\":\"Y\"}} ").is_none());
    assert!(parse_ballot_text("{\"nonce\":42,\"vote\":{\"name\":\"X\"}}").is_none());
}

#[test]
fn rejects_escapes_in_names() {
    assert!(parse_ballot_text(
        "{\"nonce\":42,\"vote\":{\"name\":\"X\\\"\",\"party\":\"Y\"}}"
    )
    .is_none());
}

#[test]
fn parses_unicode_names() {
    let b = parse_ballot_text("{\"nonce\":7,\"vote\":{\"name\":\"É. Dupont\",\"party\":\"Å\"}}")
        .expect("unicode names should parse");
    assert_eq!(b.candidate, "É. Dupont");
    assert_eq!(b.party, "Å");
}

#[test]
fn decodes_percent_escapes() {
    assert_eq!(decode_submission("%41%20B").unwrap(), "A B");
    assert_eq!(decode_submission("hello").unwrap(), "hello");
    assert_eq!(decode_submission("%C3%89").unwrap(), "É");
}

#[test]
fn rejects_non_utf8_percent_data() {
    assert_eq!(decode_submission("%FF").unwrap_err(), VoteError::Encoding);
}
