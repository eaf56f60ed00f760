//! Hash and XOF adapters: G, H, J and the PRF of FIPS 203.
//!
//! The hash primitives themselves (SHA3-256, SHA3-512, SHAKE-128,
//! SHAKE-256) are outside collaborators.  Each is reached through one
//! trusted wrapper whose result is given a name; everything layered on
//! top of the wrappers is verified against those names.

use vstd::prelude::*;
use crate::bytes::{concat_bytes, take_range};

use sha3::{Digest, Sha3_256, Sha3_512, Shake128, Shake256};
use sha3::digest::{ExtendableOutput, Update, XofReader};

verus! {

/// The SHA3-256 digest of a byte string.
pub uninterp spec fn sha3_256_of(input: Seq<u8>) -> Seq<u8>;

/// The SHA3-512 digest of a byte string.
pub uninterp spec fn sha3_512_of(input: Seq<u8>) -> Seq<u8>;

/// The first `outlen` bytes of SHAKE-256 output on a byte string.
pub uninterp spec fn shake256_of(input: Seq<u8>, outlen: int) -> Seq<u8>;

/// The first `outlen` bytes of SHAKE-128 output on a byte string.
pub uninterp spec fn shake128_of(input: Seq<u8>, outlen: int) -> Seq<u8>;

/// H of FIPS 203.  Relies on sha3::Sha3_256: a 32-byte digest that
/// depends on the input bytes alone.
#[verifier::external_body]
pub(crate) fn h(input: &Vec<u8>) -> (r: Vec<u8>)
    ensures
        r@ == sha3_256_of(input@),
        r@.len() == 32,
{
    Sha3_256::digest(input.as_slice()).to_vec()
}

/// Relies on sha3::Sha3_512: a 64-byte digest that depends on the
/// input bytes alone.
#[verifier::external_body]
fn sha3_512_hash(input: &Vec<u8>) -> (r: Vec<u8>)
    ensures
        r@ == sha3_512_of(input@),
        r@.len() == 64,
{
    Sha3_512::digest(input.as_slice()).to_vec()
}

/// Relies on sha3::Shake256: an extendable-output function; reading
/// `outlen` bytes yields a prefix that depends on the input alone.
#[verifier::external_body]
pub(crate) fn shake256_xof(input: &Vec<u8>, outlen: usize) -> (r: Vec<u8>)
    ensures
        r@ == shake256_of(input@, outlen as int),
        r@.len() == outlen,
{
    let mut hasher = Shake256::default();
    hasher.update(input.as_slice());
    let mut xof = hasher.finalize_xof();
    let mut out = vec![0u8; outlen];
    xof.read(&mut out);
    out
}

/// Relies on sha3::Shake128: an extendable-output function; reading
/// `outlen` bytes yields a prefix that depends on the input alone.
#[verifier::external_body]
pub(crate) fn shake128_xof(input: &Vec<u8>, outlen: usize) -> (r: Vec<u8>)
    ensures
        r@ == shake128_of(input@, outlen as int),
        r@.len() == outlen,
{
    let mut hasher = Shake128::default();
    hasher.update(input.as_slice());
    let mut xof = hasher.finalize_xof();
    let mut out = vec![0u8; outlen];
    xof.read(&mut out);
    out
}

/// First half of G: the key-derivation output.
pub open spec fn g_spec_a(input: Seq<u8>) -> Seq<u8> {
    sha3_512_of(input).take(32)
}

/// Second half of G: the coin/seed output.
pub open spec fn g_spec_b(input: Seq<u8>) -> Seq<u8> {
    sha3_512_of(input).skip(32)
}

/// G of FIPS 203: SHA3-512 of `seed || extra`, split into two 32-byte
/// halves.
pub(crate) fn g(seed: &Vec<u8>, extra: &Vec<u8>) -> (r: (Vec<u8>, Vec<u8>))
    ensures
        r.0@ == g_spec_a(seed@ + extra@),
        r.1@ == g_spec_b(seed@ + extra@),
        r.0@.len() == 32,
        r.1@.len() == 32,
{
    let input = concat_bytes(seed, extra);
    let dig = sha3_512_hash(&input);
    let a = take_range(&dig, 0, 32);
    let b = take_range(&dig, 32, 64);
    proof {
        assert(dig@.subrange(0, 32) =~= dig@.take(32));
        assert(dig@.subrange(32, 64) =~= dig@.skip(32));
    }
    (a, b)
}

/// Derive (rho, sigma) from a 32-byte seed and the rank k, as
/// G(seed || [k]).
pub fn g_33(seed: &Vec<u8>, k: u8) -> (r: (Vec<u8>, Vec<u8>))
    ensures
        r.0@ == g_spec_a(seed@ + seq![k]),
        r.1@ == g_spec_b(seed@ + seq![k]),
        r.0@.len() == 32,
        r.1@.len() == 32,
{
    let mut extra: Vec<u8> = Vec::new();
    extra.push(k);
    proof {
        assert(extra@ =~= seq![k]);
    }
    g(seed, &extra)
}

/// J of FIPS 203: SHAKE-256 of `s || c`, read out to 32 bytes.
pub(crate) fn j(s: &Vec<u8>, c: &Vec<u8>) -> (r: Vec<u8>)
    ensures
        r@ == shake256_of(s@ + c@, 32),
        r@.len() == 32,
{
    let input = concat_bytes(s, c);
    shake256_xof(&input, 32)
}

/// PRF of FIPS 203: SHAKE-256 of `s || [b]`, read out to 64 * eta
/// bytes.
pub(crate) fn prf(eta: usize, s: &Vec<u8>, b: u8) -> (r: Vec<u8>)
    requires
        eta == 2 || eta == 3,
    ensures
        r@ == shake256_of(s@ + seq![b], 64 * eta as int),
        r@.len() == 64 * eta,
{
    let mut extra: Vec<u8> = Vec::new();
    extra.push(b);
    proof {
        assert(extra@ =~= seq![b]);
    }
    let input = concat_bytes(s, &extra);
    shake256_xof(&input, 64 * eta)
}

} // verus!
