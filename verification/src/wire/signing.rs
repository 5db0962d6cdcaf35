//! The Ed25519 keys and signatures that travel beside a submission.

use vstd::prelude::*;

use crate::bytes;
use crate::outside;

verus! {

/// An Ed25519 verification key.
#[derive(Debug, Clone, Copy, PartialEq, Eq)]
pub struct VerifyingKey {
    pub bytes: [u8; 32],
}

/// A detached Ed25519 signature.
#[derive(Debug, Clone, Copy, PartialEq, Eq)]
pub struct Signature {
    pub bytes: [u8; 64],
}

impl View for VerifyingKey {
    type V = Seq<u8>;

    open spec fn view(&self) -> Seq<u8> {
        self.bytes@
    }
}

impl View for Signature {
    type V = Seq<u8>;

    open spec fn view(&self) -> Seq<u8> {
        self.bytes@
    }
}

impl VerifyingKey {
    /// The key that 32 bytes are, where they are a point of the curve.
    pub fn from_bytes(key: &[u8; 32]) -> (r: Result<VerifyingKey, String>)
        ensures
            match r {
                Ok(k) => outside::ed25519_point(key@) && k@ == key@,
                Err(reason) => outside::ed25519_refusal(key@) == Some(reason@),
            },
    {
        match outside::ed25519_check_key(key) {
            None => Ok(VerifyingKey { bytes: *key }),
            Some(reason) => Err(reason),
        }
    }

    /// Whether two keys are the same bytes.
    pub fn same(&self, other: &VerifyingKey) -> (r: bool)
        ensures
            r == (self@ == other@),
    {
        bytes::same(self.bytes.as_slice(), other.bytes.as_slice())
    }
}

impl VerifyingKey {
    /// Whether `signature` stands over `message` under this key.
    pub fn verify_strict(&self, message: &[u8], signature: &Signature) -> (r: bool)
        ensures
            r == outside::ed25519_strict(self@, message@, signature@),
    {
        outside::ed25519_verify_strict(&self.bytes, message, &signature.bytes)
    }
}

impl Signature {
    /// The signature that 64 bytes are.
    pub fn from_bytes(signature: &[u8; 64]) -> (r: Signature)
        ensures
            r@ == signature@,
    {
        Signature { bytes: *signature }
    }
}

}
