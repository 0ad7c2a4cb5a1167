//! Voter registry: assigns voter identifiers and records a claimed public
//! key per identity. Re-registering an identity returns the identifier it
//! already holds instead of creating a duplicate.

use vstd::prelude::*;
use vstd::string::StrSliceExecFns;

verus! {

/// A registered voter: the electronic identity and the public key it claimed.
pub struct Voter {
    pub identity: String,
    pub public_key: String,
}

/// What a registration attempt came to.
#[derive(Clone, Copy, Debug, PartialEq, Eq, Structural)]
pub enum RegisterOutcome {
    /// The identity does not carry the required prefix.
    InvalidIdentity,
    /// The identity is already registered under this voter id.
    AlreadyRegistered(u64),
    /// A fresh registration under this voter id.
    Registered(u64),
}

/// A well-formed electronic identity starts with the national prefix `BE-`.
pub open spec fn is_valid_identity(s: Seq<char>) -> bool {
    s.len() >= 3 && s[0] == 'B' && s[1] == 'E' && s[2] == '-'
}

/// The registered voters, in registration order; a voter's id is its index.
pub struct Registry {
    pub voters: Vec<Voter>,
}

impl Registry {
    /// An empty registry.
    pub fn new() -> (r: Registry)
        ensures
            r.voters@.len() == 0,
    {
        Registry { voters: Vec::new() }
    }

    /// Whether `identity` carries the required `BE-` prefix.
    pub fn identity_ok(identity: &String) -> (b: bool)
        ensures
            b == is_valid_identity(identity@),
    {
        let sl = identity.as_str();
        if sl.unicode_len() < 3 {
            false
        } else {
            sl.get_char(0) == 'B' && sl.get_char(1) == 'E' && sl.get_char(2) == '-'
        }
    }

    /// Register an identity with its claimed public key.
    ///
    /// An identity without the `BE-` prefix is rejected. An identity already
    /// present is answered with the voter id it was first registered under.
    /// Otherwise the voter is appended and its index is its new id. Only the
    /// fresh-registration case changes the registry.
    pub fn register(&mut self, identity: String, public_key: String) -> (r: RegisterOutcome)
        ensures
            match r {
                RegisterOutcome::InvalidIdentity => {
                    &&& !is_valid_identity(identity@)
                    &&& final(self).voters@ == old(self).voters@
                },
                RegisterOutcome::AlreadyRegistered(i) => {
                    &&& is_valid_identity(identity@)
                    &&& 0 <= i < old(self).voters@.len()
                    &&& old(self).voters@[i as int].identity@ == identity@
                    &&& forall|j: int| 0 <= j < i ==> old(self).voters@[j].identity@ != identity@
                    &&& final(self).voters@ == old(self).voters@
                },
                RegisterOutcome::Registered(i) => {
                    &&& is_valid_identity(identity@)
                    &&& forall|k: int|
                        0 <= k < old(self).voters@.len() ==> old(self).voters@[k].identity@
                            != identity@
                    &&& i == old(self).voters@.len()
                    &&& final(self).voters@ == old(self).voters@.push(
                        (Voter { identity, public_key }),
                    )
                },
            },
    {
        if !Self::identity_ok(&identity) {
            return RegisterOutcome::InvalidIdentity;
        }
        let n = self.voters.len();
        let mut i: usize = 0;
        while i < n
            invariant
                is_valid_identity(identity@),
                n == self.voters@.len(),
                i <= n,
                forall|j: int| 0 <= j < i ==> self.voters@[j].identity@ != identity@,
            decreases n - i,
        {
            if self.voters[i].identity == identity {
                return RegisterOutcome::AlreadyRegistered(i as u64);
            }
            i += 1;
        }
        self.voters.push(Voter { identity, public_key });
        RegisterOutcome::Registered(n as u64)
    }

    /// The public key registered under `voter_id`, or nothing when no such
    /// voter exists.
    pub fn lookup(&self, voter_id: u64) -> (r: Option<String>)
        ensures
            match r {
                Some(k) => voter_id < self.voters@.len() && k@ == self.voters@[voter_id as int].public_key@,
                None => voter_id >= self.voters@.len(),
            },
    {
        let n = self.voters.len();
        if voter_id < n as u64 {
            let i = voter_id as usize;
            Some(self.voters[i].public_key.clone())
        } else {
            None
        }
    }
}

} // verus!
