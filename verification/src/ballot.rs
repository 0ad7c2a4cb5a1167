//! The decrypted ballot record and the errors and outcomes of a submission.

use vstd::prelude::*;

verus! {

/// A ballot as it stands after successful decryption and parsing:
/// a replay nonce together with the chosen candidate and party.
/// Immutable once constructed.
pub struct Ballot {
    pub nonce: u64,
    pub candidate: String,
    pub party: String,
}

/// Mathematical model of a ballot: the nonce and the two names as
/// character sequences.
pub ghost struct BallotModel {
    pub nonce: u64,
    pub candidate: Seq<char>,
    pub party: Seq<char>,
}

impl View for Ballot {
    type V = BallotModel;

    open spec fn view(&self) -> BallotModel {
        BallotModel { nonce: self.nonce, candidate: self.candidate@, party: self.party@ }
    }
}

/// Why a submission was rejected before it reached the replay guard.
#[derive(Clone, Copy, Debug, PartialEq, Eq, Structural)]
pub enum VoteError {
    /// The wire form was not validly percent-encoded UTF-8.
    Encoding,
    /// The decryption capability reported failure (wrong key, corrupt
    /// ciphertext, not encrypted to this recipient, or a timeout).
    DecryptionFailed,
    /// The decrypted plaintext was not a valid ballot record.
    MalformedPayload,
}

/// The end-to-end result of one submission through the intake pipeline.
#[derive(Clone, Copy, Debug, PartialEq, Eq, Structural)]
pub enum Outcome {
    /// The ballot was fresh and its vote is now in the tally.
    Counted,
    /// The ballot's nonce had already been consumed; the tally is unchanged.
    RejectedDuplicate,
    /// The ballot never reached the replay guard; the reason says why.
    RejectedInvalid(VoteError),
}

} // verus!
