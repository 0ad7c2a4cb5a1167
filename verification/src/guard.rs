//! Replay guard: the set of nonces already consumed. Inserting a nonce is
//! the sole admissibility gate — a ballot is accepted if and only if its
//! nonce was not already present immediately before the call.

use vstd::prelude::*;

verus! {

/// The set of previously seen ballot nonces.
pub struct NonceSet {
    pub seen: Vec<u64>,
}

impl View for NonceSet {
    type V = Set<u64>;

    open spec fn view(&self) -> Set<u64> {
        self.seen@.to_set()
    }
}

impl NonceSet {
    /// How many acceptances have been recorded. Distinct from the set's
    /// cardinality only in that it is what the underlying store counts;
    /// `accept` never records the same nonce twice, so they coincide.
    pub open spec fn accepted(&self) -> nat {
        self.seen@.len()
    }

    /// An empty guard: no nonce has been consumed yet.
    pub fn new() -> (g: NonceSet)
        ensures
            g@ == Set::<u64>::empty(),
            g.accepted() == 0,
    {
        NonceSet { seen: Vec::new() }
    }

    /// Whether `nonce` has already been consumed.
    pub fn contains(&self, nonce: u64) -> (r: bool)
        ensures
            r == self@.contains(nonce),
    {
        let mut i: usize = 0;
        while i < self.seen.len()
            invariant
                i <= self.seen@.len(),
                forall|j: int| 0 <= j < i ==> self.seen@[j] != nonce,
            decreases self.seen@.len() - i,
        {
            if self.seen[i] == nonce {
                assert(self.seen@.contains(nonce));
                return true;
            }
            i += 1;
        }
        assert(!self.seen@.contains(nonce));
        false
    }

    /// Decide admissibility: records `nonce` and returns `true` if it was
    /// not previously seen; returns `false` and changes nothing if it was.
    pub fn accept(&mut self, nonce: u64) -> (r: bool)
        ensures
            r == !old(self)@.contains(nonce),
            final(self)@ == old(self)@.insert(nonce),
            final(self).accepted() == old(self).accepted() + (if r { 1int } else { 0int }),
    {
        if self.contains(nonce) {
            proof {
                assert(self@.insert(nonce) =~= self@);
            }
            false
        } else {
            let ghost pre = self.seen@;
            self.seen.push(nonce);
            proof {
                assert(self.seen@.to_set() =~= pre.to_set().insert(nonce)) by {
                    assert forall|x: u64| self.seen@.to_set().contains(x)
                        implies pre.to_set().insert(nonce).contains(x) by {
                        let k = choose|k: int| 0 <= k < self.seen@.len() && self.seen@[k] == x;
                        if k < pre.len() {
                            assert(pre[k] == x);
                        }
                    }
                    assert forall|x: u64| pre.to_set().insert(nonce).contains(x)
                        implies self.seen@.to_set().contains(x) by {
                        if x == nonce {
                            assert(self.seen@[self.seen@.len() - 1] == x);
                        } else {
                            let k = choose|k: int| 0 <= k < pre.len() && pre[k] == x;
                            assert(self.seen@[k] == x);
                        }
                    }
                }
            }
            true
        }
    }

    /// The number of acceptances, for callers that need it as a machine word.
    pub fn len(&self) -> (n: usize)
        ensures
            n == self.accepted(),
    {
        self.seen.len()
    }
}

} // verus!
