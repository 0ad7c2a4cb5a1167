//! Ballot intake pipeline: decryption gateway result → replay guard →
//! tally store, with the end-to-end contract and failure policy.
//!
//! Decryption itself is an opaque external capability; the pipeline here
//! takes its outcome (the plaintext, or failure) and makes every decision
//! that follows: parsing, replay admission, counting. The whole step is the
//! spec function [`submit_step`], and the executable pipeline returns and
//! mutates exactly what it says.

use vstd::prelude::*;
use crate::ballot::{Outcome, VoteError};
use crate::guard::NonceSet;
use crate::parse::{parse_ballot, parse_ballot_text};
use crate::tally::Tally;

verus! {

/// The pipeline's state, mathematically: the consumed nonces and the count
/// for every (party, candidate) pair.
pub ghost struct IntakeModel {
    pub nonces: Set<u64>,
    pub counts: Map<(Seq<char>, Seq<char>), nat>,
}

/// One submission against a state: what the next state and the outcome are.
///
/// `None` stands for a decryption failure (including a timeout); a plaintext
/// outside the ballot grammar is malformed; a replayed nonce is dropped
/// without touching the tally; only a fresh, well-formed ballot counts.
pub open spec fn submit_step(m: IntakeModel, t: Option<Seq<char>>) -> (IntakeModel, Outcome) {
    match t {
        None => (m, Outcome::RejectedInvalid(VoteError::DecryptionFailed)),
        Some(pt) => match parse_ballot(pt) {
            None => (m, Outcome::RejectedInvalid(VoteError::MalformedPayload)),
            Some(b) => if m.nonces.contains(b.nonce) {
                (m, Outcome::RejectedDuplicate)
            } else {
                (
                    IntakeModel {
                        nonces: m.nonces.insert(b.nonce),
                        counts: m.counts.insert(
                            (b.party, b.candidate),
                            (m.counts[(b.party, b.candidate)] + 1) as nat,
                        ),
                    },
                    Outcome::Counted,
                )
            },
        },
    }
}

/// The shared state behind the intake pipeline: the replay guard and the
/// tally, as one resource to be held under one exclusive handle.
pub struct Intake {
    pub guard: NonceSet,
    pub tally: Tally,
}

impl View for Intake {
    type V = IntakeModel;

    open spec fn view(&self) -> IntakeModel {
        IntakeModel {
            nonces: self.guard@,
            counts: Map::new(
                |k: (Seq<char>, Seq<char>)| true,
                |k: (Seq<char>, Seq<char>)| self.tally.count(k.0, k.1),
            ),
        }
    }
}

impl Intake {
    /// Internal invariant: the tally is well formed and the sum of all its
    /// counts equals the number of ballots the replay guard ever accepted —
    /// every increment corresponds to exactly one accepted ballot. It also
    /// bounds every cell, so an increment can never overflow.
    pub open spec fn wf(&self) -> bool {
        &&& self.tally.wf()
        &&& self.tally.total() == self.guard.accepted()
    }

    /// A fresh pipeline: no nonce consumed, every count zero.
    pub fn new() -> (s: Intake)
        ensures
            s.wf(),
            s@.nonces == Set::<u64>::empty(),
            forall|p: Seq<char>, c: Seq<char>| #[trigger] s@.counts[(p, c)] == 0,
    {
        Intake { guard: NonceSet::new(), tally: Tally::new() }
    }

    /// Submit the outcome of decrypting one ballot: the plaintext, or `None`
    /// when the decryption capability failed. State and outcome move exactly
    /// as [`submit_step`] says.
    pub fn submit(&mut self, decrypted: Option<&str>) -> (r: Outcome)
        requires
            old(self).wf(),
        ensures
            final(self).wf(),
            ({
                let t = match decrypted {
                    Some(pt) => Some(pt@),
                    None => None,
                };
                let (m2, o) = submit_step(old(self)@, t);
                final(self)@ == m2 && r == o
            }),
    {
        let pt = match decrypted {
            Some(pt) => pt,
            None => {
                return Outcome::RejectedInvalid(VoteError::DecryptionFailed);
            },
        };
        let b = match parse_ballot_text(pt) {
            Some(b) => b,
            None => {
                return Outcome::RejectedInvalid(VoteError::MalformedPayload);
            },
        };
        if self.guard.accept(b.nonce) {
            let len_after = self.guard.len();
            proof {
                assert(len_after == old(self).guard.accepted() + 1);
                crate::tally::lemma_count_le_total(self.tally.rows@, b.party@, b.candidate@);
                assert(self.tally.count(b.party@, b.candidate@) <= old(self).guard.accepted());
            }
            self.tally.increment(&b.party, &b.candidate);
            proof {
                let key = (b.party@, b.candidate@);
                let m0 = old(self)@;
                assert(m0.counts[key] == old(self).tally.count(b.party@, b.candidate@));
                assert(self@.counts =~= m0.counts.insert(key, (m0.counts[key] + 1) as nat));
                assert(self@.nonces == m0.nonces.insert(b.nonce));
            }
            Outcome::Counted
        } else {
            proof {
                assert(old(self)@.nonces.insert(b.nonce) =~= old(self)@.nonces);
                assert(self@.counts =~= old(self)@.counts);
            }
            Outcome::RejectedDuplicate
        }
    }

    /// Whether a nonce has already been consumed.
    pub fn seen_nonce(&self, nonce: u64) -> (r: bool)
        ensures
            r == self@.nonces.contains(nonce),
    {
        self.guard.contains(nonce)
    }

    /// The current count for one (party, candidate) pair.
    pub fn current_count(&self, party: &String, candidate: &String) -> (r: u64)
        requires
            self.wf(),
        ensures
            r == self@.counts[(party@, candidate@)],
    {
        self.tally.get(party, candidate)
    }

    /// A consistent point-in-time copy of the whole tally: every pair's
    /// count in the copy is this pipeline's count, never a torn value.
    pub fn snapshot(&self) -> (t: Tally)
        ensures
            t.rows@ == self.tally.rows@,
            forall|p: Seq<char>, c: Seq<char>| #[trigger] t.count(p, c) == self@.counts[(p, c)],
    {
        self.tally.snapshot()
    }
}

/// Whether a plaintext spells a ballot for the given pair.
pub open spec fn spells_vote(t: Seq<char>, p: Seq<char>, c: Seq<char>) -> bool {
    match parse_ballot(t) {
        Some(b) => b.party == p && b.candidate == c,
        None => false,
    }
}

/// The nonce a plaintext carries (zero when it is not a ballot).
pub open spec fn nonce_of(t: Seq<char>) -> u64 {
    match parse_ballot(t) {
        Some(b) => b.nonce,
        None => 0,
    }
}

/// Idempotent replay: a ballot that counts, submitted again unchanged, is
/// rejected as a duplicate, and the state — nonces and every count — stays
/// exactly as the first submission left it. The pair's count rises once.
pub proof fn lemma_replay_counted_once(m: IntakeModel, t: Seq<char>)
    requires
        parse_ballot(t) is Some,
        !m.nonces.contains(nonce_of(t)),
    ensures
        ({
            let b = parse_ballot(t)->Some_0;
            let (m1, o1) = submit_step(m, Some(t));
            let (m2, o2) = submit_step(m1, Some(t));
            &&& o1 == Outcome::Counted
            &&& m1.counts[(b.party, b.candidate)] == m.counts[(b.party, b.candidate)] + 1
            &&& o2 == Outcome::RejectedDuplicate
            &&& m2 == m1
        }),
{
}

/// A malformed submission is a no-op: a plaintext outside the grammar, or a
/// failed decryption, leaves nonces and counts exactly unchanged.
pub proof fn lemma_malformed_is_no_op(m: IntakeModel, t: Seq<char>)
    requires
        parse_ballot(t) is None,
    ensures
        submit_step(m, Some(t)) == (m, Outcome::RejectedInvalid(VoteError::MalformedPayload)),
        submit_step(m, None) == (m, Outcome::RejectedInvalid(VoteError::DecryptionFailed)),
{
}

/// Folding a sequence of submissions over a state, first to last.
pub open spec fn submit_all(m: IntakeModel, ts: Seq<Seq<char>>) -> IntakeModel
    decreases ts.len(),
{
    if ts.len() == 0 {
        m
    } else {
        submit_all(submit_step(m, Some(ts[0])).0, ts.subrange(1, ts.len() as int))
    }
}

/// No lost updates: N ballots for one (party, candidate) pair, with pairwise
/// distinct and fresh nonces, raise that pair's count by exactly N, in
/// whatever order they are folded in.
pub proof fn lemma_distinct_ballots_all_counted(
    m: IntakeModel,
    ts: Seq<Seq<char>>,
    p: Seq<char>,
    c: Seq<char>,
)
    requires
        forall|x: int| 0 <= x < ts.len() ==> spells_vote(#[trigger] ts[x], p, c),
        forall|x: int, y: int|
            0 <= x < y < ts.len() ==> #[trigger] nonce_of(ts[x]) != #[trigger] nonce_of(ts[y]),
        forall|x: int| 0 <= x < ts.len() ==> !m.nonces.contains(nonce_of(#[trigger] ts[x])),
    ensures
        submit_all(m, ts).counts[(p, c)] == m.counts[(p, c)] + ts.len(),
    decreases ts.len(),
{
    if ts.len() > 0 {
        let t0 = ts[0];
        assert(spells_vote(t0, p, c));
        let b = parse_ballot(t0)->Some_0;
        let m1 = submit_step(m, Some(t0)).0;
        assert(m1.counts[(p, c)] == m.counts[(p, c)] + 1);
        let rest = ts.subrange(1, ts.len() as int);
        assert forall|x: int| 0 <= x < rest.len() implies spells_vote(#[trigger] rest[x], p, c) by {
            assert(rest[x] == ts[x + 1]);
        }
        assert forall|x: int, y: int| 0 <= x < y < rest.len() implies #[trigger] nonce_of(rest[x])
            != #[trigger] nonce_of(rest[y]) by {
            assert(rest[x] == ts[x + 1] && rest[y] == ts[y + 1]);
        }
        assert forall|x: int| 0 <= x < rest.len() implies !m1.nonces.contains(
            nonce_of(#[trigger] rest[x]),
        ) by {
            assert(rest[x] == ts[x + 1]);
            assert(nonce_of(ts[x + 1]) != nonce_of(ts[0]));
            assert(!m.nonces.contains(nonce_of(ts[x + 1])));
        }
        lemma_distinct_ballots_all_counted(m1, rest, p, c);
    }
}

} // verus!
