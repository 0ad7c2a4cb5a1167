//! Public key distributor: serves the decryption authority's public key
//! verbatim from the material it was configured with at startup.

use vstd::prelude::*;

verus! {

/// Holds the authority's public key material, loaded once at startup by the
/// caller (reading the key file is the caller's concern, not this type's).
pub struct PublicKeyDistributor {
    pub key: String,
}

impl PublicKeyDistributor {
    /// The key material this distributor serves.
    pub open spec fn key_material(&self) -> Seq<char> {
        self.key@
    }

    /// Configure the distributor with the key material to serve.
    pub fn new(key: String) -> (d: PublicKeyDistributor)
        ensures
            d.key_material() == key@,
    {
        PublicKeyDistributor { key }
    }

    /// Return the configured key material, verbatim.
    pub fn get_public_key(&self) -> (k: String)
        ensures
            k@ == self.key_material(),
    {
        self.key.clone()
    }
}

} // verus!
