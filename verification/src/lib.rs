//! Verified core of an encrypted-ballot tally service.
//!
//! Encrypted ballots arrive percent-encoded; after the decryption authority's
//! opaque capability has turned a ciphertext back into plaintext, the intake
//! pipeline parses it into a ballot record, rejects replayed nonces, and
//! counts the vote in a per-party, per-candidate tally. A sibling registry
//! records voter identities. All decisions — parsing, replay admission,
//! counting, registration — are made here under contracts; network transport
//! and the decryption capability itself stay outside.

pub mod ballot;
pub mod codec;
pub mod distributor;
pub mod guard;
pub mod intake;
pub mod parse;
pub mod registry;
pub mod tally;
