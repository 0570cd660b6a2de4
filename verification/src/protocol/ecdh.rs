use vstd::prelude::*;

verus! {

/// The keys of an elliptic-curve Diffie-Hellman exchange with the server: the public key sent
/// with a login request, and the 16-byte key shared with the server that encrypts its body.
#[derive(Debug, Clone)]
pub struct ECDH {
    pub public_key: Vec<u8>,
    pub share_key: [u8; 16],
}

impl ECDH {
    /// Keys agreed elsewhere.
    pub fn from_keys(public_key: Vec<u8>, share_key: [u8; 16]) -> (ecdh: ECDH)
        ensures
            ecdh.public_key@ == public_key@,
            ecdh.share_key == share_key,
    {
        ECDH { public_key, share_key }
    }
}

} // verus!
