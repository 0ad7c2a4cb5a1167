//! Wire decoding: a submitted ballot arrives percent-encoded; this module
//! turns it back into the ciphertext string handed to the decryption
//! capability.

use vstd::prelude::*;
use crate::ballot::VoteError;

verus! {

/// What percent-decoding yields for a given input: the decoded character
/// sequence, or nothing when the decoded bytes are not valid UTF-8. The
/// result depends on the input characters alone.
pub uninterp spec fn percent_decoded(s: Seq<char>) -> Option<Seq<char>>;

/// Relies on `urlencoding::decode`: it replaces each `%XX` escape by the
/// byte it names, leaves every other byte (including `+`) as it stands, and
/// re-reads the whole as UTF-8, failing exactly when that re-reading fails.
/// A deterministic function of the input, named here as `percent_decoded`.
#[verifier::external_body]
fn percent_decode(s: &str) -> (r: Option<String>)
    ensures
        match r {
            Some(t) => percent_decoded(s@) == Some(t@),
            None => percent_decoded(s@) is None,
        },
{
    match urlencoding::decode(s) {
        Ok(t) => Some(t.into_owned()),
        Err(_) => None,
    }
}

/// Decode the wire form of a submission. Fails with `Encoding` exactly when
/// the input is not validly percent-encoded UTF-8.
pub fn decode_submission(raw: &str) -> (r: Result<String, VoteError>)
    ensures
        match r {
            Ok(t) => percent_decoded(raw@) == Some(t@),
            Err(e) => e == VoteError::Encoding && percent_decoded(raw@) is None,
        },
{
    match percent_decode(raw) {
        Some(t) => Ok(t),
        None => Err(VoteError::Encoding),
    }
}

} // verus!
