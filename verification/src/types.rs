//! Key, ciphertext and shared-secret containers: plain byte vectors
//! with identity serialization.

use vstd::prelude::*;

verus! {

/// The 32-byte shared secret that both parties derive.
pub struct SharedSecretKey(pub Vec<u8>);

impl SharedSecretKey {
    /// The raw 32 bytes.
    pub fn into_bytes(self) -> (r: Vec<u8>)
        ensures
            r@ == self.0@,
    {
        self.0
    }
}

/// Copy a byte slice into a fresh vector.
fn slice_to_vec(bytes: &[u8]) -> (r: Vec<u8>)
    ensures
        r@ == bytes@,
{
    let mut out: Vec<u8> = Vec::new();
    let mut i: usize = 0;
    while i < bytes.len()
        invariant
            i <= bytes@.len(),
            out@ == bytes@.take(i as int),
        decreases bytes@.len() - i,
    {
        out.push(bytes[i]);
        proof {
            assert(bytes@.take(i + 1) =~= bytes@.take(i as int).push(bytes@[i as int]));
        }
        i = i + 1;
    }
    proof {
        assert(bytes@.take(bytes@.len() as int) =~= bytes@);
    }
    out
}

/// The public encapsulation key: ByteEncode(t-hat, 12) || rho.
pub struct EncapsKey(pub Vec<u8>);

impl EncapsKey {
    /// The raw key bytes.
    pub fn into_bytes(self) -> (r: Vec<u8>)
        ensures
            r@ == self.0@,
    {
        self.0
    }

    /// Rebuild a key from its byte serialization.
    pub fn from_slice(bytes: &[u8]) -> (r: Self)
        ensures
            r.0@ == bytes@,
    {
        EncapsKey(slice_to_vec(bytes))
    }
}

/// The secret decapsulation key:
/// dk_PKE || ek_PKE || H(ek_PKE) || z.
pub struct DecapsKey(pub Vec<u8>);

impl DecapsKey {
    /// The raw key bytes.
    pub fn into_bytes(self) -> (r: Vec<u8>)
        ensures
            r@ == self.0@,
    {
        self.0
    }

    /// Rebuild a key from its byte serialization.
    pub fn from_slice(bytes: &[u8]) -> (r: Self)
        ensures
            r.0@ == bytes@,
    {
        DecapsKey(slice_to_vec(bytes))
    }
}

/// A ciphertext: the compressed, packed (u, v) pair.
pub struct CipherText(pub Vec<u8>);

impl CipherText {
    /// The raw ciphertext bytes.
    pub fn into_bytes(self) -> (r: Vec<u8>)
        ensures
            r@ == self.0@,
    {
        self.0
    }

    /// Rebuild a ciphertext from its byte serialization.
    pub fn from_slice(bytes: &[u8]) -> (r: Self)
        ensures
            r.0@ == bytes@,
    {
        CipherText(slice_to_vec(bytes))
    }
}

} // verus!
