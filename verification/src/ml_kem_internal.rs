//! The Fujisaki-Okamoto transform: ML-KEM key generation,
//! encapsulation and decapsulation with implicit rejection.
//!
//! Decapsulation re-encrypts the recovered message and selects between
//! the real secret and the rejection secret J(z || c) with a single
//! byte mask: the comparison runs over the whole ciphertext with no
//! early exit, and the selection is mask arithmetic, never a branch on
//! secret data.

use vstd::prelude::*;
use crate::bytes::{concat_bytes, take_range};
use crate::hash_utils::{g, g_spec_a, g_spec_b, h, j, sha3_256_of, shake256_of};
use crate::k_pke::{
    pke_decrypt, pke_decrypt_spec, pke_encrypt, pke_encrypt_spec, pke_key_gen, pke_keygen_dk_spec,
    pke_keygen_ek_spec, valid_params,
};
use crate::types::{CipherText, DecapsKey, EncapsKey, SharedSecretKey};

verus! {

/// The encapsulation-key bytes of ML-KEM key generation.
pub open spec fn mlkem_ek_spec(k: int, eta1: int, d: Seq<u8>) -> Seq<u8> {
    pke_keygen_ek_spec(k, eta1, d)
}

/// The decapsulation-key bytes of ML-KEM key generation:
/// dk_PKE || ek_PKE || H(ek_PKE) || z.
pub open spec fn mlkem_dk_spec(k: int, eta1: int, d: Seq<u8>, z: Seq<u8>) -> Seq<u8> {
    let ek = pke_keygen_ek_spec(k, eta1, d);
    pke_keygen_dk_spec(k, eta1, d) + ek + sha3_256_of(ek) + z
}

/// ML-KEM key generation from the two 32-byte seeds d and z.
pub fn ml_kem_keygen_internal(k: usize, eta1: usize, d: &Vec<u8>, z: &Vec<u8>) -> (r: (
    EncapsKey,
    DecapsKey,
))
    requires
        valid_params(k as int, eta1 as int, 2, 10, 4) || valid_params(
            k as int,
            eta1 as int,
            2,
            11,
            5,
        ),
        d@.len() == 32,
        z@.len() == 32,
    ensures
        r.0.0@ == mlkem_ek_spec(k as int, eta1 as int, d@),
        r.1.0@ == mlkem_dk_spec(k as int, eta1 as int, d@, z@),
        r.0.0@.len() == 384 * k + 32,
        r.1.0@.len() == 768 * k + 96,
{
    let (ek_pke, dk_pke) = pke_key_gen(k, eta1, d);
    let hk = h(&ek_pke);
    let a = concat_bytes(&dk_pke, &ek_pke);
    let b = concat_bytes(&a, &hk);
    let dk = concat_bytes(&b, z);
    (EncapsKey(ek_pke), DecapsKey(dk))
}

/// The shared secret of encapsulation: the first half of
/// G(m || H(ek)).
pub open spec fn mlkem_encaps_key_spec(ek: Seq<u8>, m: Seq<u8>) -> Seq<u8> {
    g_spec_a(m + sha3_256_of(ek))
}

/// The ciphertext of encapsulation.
pub open spec fn mlkem_encaps_ct_spec(
    k: int,
    eta1: int,
    eta2: int,
    du: int,
    dv: int,
    ek: Seq<u8>,
    m: Seq<u8>,
) -> Seq<u8> {
    pke_encrypt_spec(k, eta1, eta2, du, dv, ek, m, g_spec_b(m + sha3_256_of(ek)))
}

/// ML-KEM encapsulation of the 32-byte message m under ek.
pub fn ml_kem_encaps_internal(
    k: usize,
    eta1: usize,
    eta2: usize,
    du: u8,
    dv: u8,
    ek: &EncapsKey,
    m: &Vec<u8>,
) -> (r: (SharedSecretKey, CipherText))
    requires
        valid_params(k as int, eta1 as int, eta2 as int, du as int, dv as int),
        ek.0@.len() == 384 * k + 32,
        m@.len() == 32,
    ensures
        r.0.0@ == mlkem_encaps_key_spec(ek.0@, m@),
        r.1.0@ == mlkem_encaps_ct_spec(
            k as int,
            eta1 as int,
            eta2 as int,
            du as int,
            dv as int,
            ek.0@,
            m@,
        ),
        r.0.0@.len() == 32,
        r.1.0@.len() == 32 * (du as int * k + dv as int),
{
    let hk = h(&ek.0);
    let (k_cap, coins) = g(m, &hk);
    let c = pke_encrypt(k, eta1, eta2, du, dv, &ek.0, m, &coins);
    (SharedSecretKey(k_cap), CipherText(c))
}

/// Whether decapsulation accepts: the re-encryption of the recovered
/// message reproduces the ciphertext.
pub open spec fn decaps_accepts(
    k: int,
    eta1: int,
    eta2: int,
    du: int,
    dv: int,
    dk: Seq<u8>,
    c: Seq<u8>,
) -> bool {
    let dk_pke = dk.subrange(0, 384 * k);
    let ek_pke = dk.subrange(384 * k, 768 * k + 32);
    let hh = dk.subrange(768 * k + 32, 768 * k + 64);
    let m = pke_decrypt_spec(k, du, dv, dk_pke, c);
    let rp = g_spec_b(m + hh);
    c == pke_encrypt_spec(k, eta1, eta2, du, dv, ek_pke, m, rp)
}

/// The shared secret returned by decapsulation: the re-derived secret
/// when the ciphertext re-encrypts to itself, else the rejection
/// secret J(z || c).  A ciphertext of the wrong length is rejected the
/// same way.
pub open spec fn mlkem_decaps_spec(
    k: int,
    eta1: int,
    eta2: int,
    du: int,
    dv: int,
    dk: Seq<u8>,
    c: Seq<u8>,
) -> Seq<u8> {
    let z = dk.subrange(768 * k + 64, 768 * k + 96);
    if c.len() != 32 * (du * k + dv) {
        shake256_of(z + c, 32)
    } else {
        if decaps_accepts(k, eta1, eta2, du, dv, dk, c) {
            let dk_pke = dk.subrange(0, 384 * k);
            let hh = dk.subrange(768 * k + 32, 768 * k + 64);
            g_spec_a(pke_decrypt_spec(k, du, dv, dk_pke, c) + hh)
        } else {
            shake256_of(z + c, 32)
        }
    }
}

/// Accumulate the difference of two equal-length byte strings:
/// zero exactly when they are equal.  Runs over the whole length.
fn ct_diff(a: &Vec<u8>, b: &Vec<u8>) -> (r: u8)
    requires
        a@.len() == b@.len(),
    ensures
        (r == 0) <==> (a@ == b@),
{
    let mut acc: u8 = 0;
    let mut i: usize = 0;
    proof {
        assert(a@.take(0) =~= b@.take(0));
    }
    while i < a.len()
        invariant
            a@.len() == b@.len(),
            i <= a@.len(),
            (acc == 0) <==> (a@.take(i as int) == b@.take(i as int)),
        decreases a@.len() - i,
    {
        let ghost accp = acc;
        let x = a[i];
        let y = b[i];
        acc = acc | (x ^ y);
        proof {
            assert((accp | (x ^ y) == 0) == (accp == 0 && x == y)) by (bit_vector);
            if acc == 0 {
                assert(a@.take(i + 1) =~= a@.take(i as int).push(a@[i as int]));
                assert(b@.take(i + 1) =~= b@.take(i as int).push(b@[i as int]));
            } else {
                if accp == 0 {
                    assert(a@.take(i + 1)[i as int] == a@[i as int]);
                    assert(b@.take(i + 1)[i as int] == b@[i as int]);
                } else {
                    assert(a@.take(i as int) == a@.take(i + 1).take(i as int));
                    assert(b@.take(i as int) == b@.take(i + 1).take(i as int));
                }
            }
        }
        i = i + 1;
    }
    proof {
        assert(a@.take(a@.len() as int) =~= a@);
        assert(b@.take(b@.len() as int) =~= b@);
    }
    acc
}

/// Select between two 32-byte secrets with a mask derived from the
/// difference byte: the first when `diff` is zero, the second
/// otherwise.  Pure mask arithmetic; no branch touches the secrets.
fn ct_select(kp: &Vec<u8>, kbar: &Vec<u8>, diff: u8) -> (r: Vec<u8>)
    requires
        kp@.len() == kbar@.len(),
    ensures
        diff == 0 ==> r@ == kp@,
        diff != 0 ==> r@ == kbar@,
        r@.len() == kp@.len(),
{
    let neg: u16 = 0u16.wrapping_sub(diff as u16);
    proof {
        assert(neg == vstd::wrapping::u16_specs::wrapping_sub(0u16, diff as u16));
        assert(diff == 0 ==> neg == 0);
        assert(diff != 0 ==> 65281 <= neg <= 65535);
    }
    let mask: u8 = (neg >> 8u16) as u8;
    proof {
        vstd::bits::lemma_u16_shr_is_div(neg, 8);
        vstd::arithmetic::power2::lemma2_to64();
        assert(diff == 0 ==> mask == 0);
        assert(diff != 0 ==> mask == 0xff);
    }
    let mut out: Vec<u8> = Vec::new();
    let mut i: usize = 0;
    while i < kp.len()
        invariant
            kp@.len() == kbar@.len(),
            mask == 0 || mask == 0xff,
            (mask == 0) == (diff == 0),
            i <= kp@.len(),
            out@.len() == i,
            forall|t: int|
                0 <= t < i ==> out@[t] == (if diff == 0 {
                    kp@[t]
                } else {
                    kbar@[t]
                }),
        decreases kp@.len() - i,
    {
        let x = kp[i];
        let y = kbar[i];
        let sel = x ^ (mask & (x ^ y));
        proof {
            assert(x ^ (0u8 & (x ^ y)) == x) by (bit_vector);
            assert(x ^ (0xffu8 & (x ^ y)) == y) by (bit_vector);
        }
        out.push(sel);
        i = i + 1;
    }
    proof {
        if diff == 0 {
            assert(out@ =~= kp@);
        } else {
            assert(out@ =~= kbar@);
        }
    }
    out
}

/// ML-KEM decapsulation: recover m, re-encrypt, and return the real
/// secret or the implicit-rejection secret, selected in constant time.
pub fn ml_kem_decaps_internal(
    k: usize,
    eta1: usize,
    eta2: usize,
    du: u8,
    dv: u8,
    dk: &DecapsKey,
    c: &CipherText,
) -> (r: SharedSecretKey)
    requires
        valid_params(k as int, eta1 as int, eta2 as int, du as int, dv as int),
        dk.0@.len() == 768 * k + 96,
    ensures
        r.0@ == mlkem_decaps_spec(
            k as int,
            eta1 as int,
            eta2 as int,
            du as int,
            dv as int,
            dk.0@,
            c.0@,
        ),
        r.0@.len() == 32,
{
    let z = take_range(&dk.0, 768 * k + 64, 768 * k + 96);
    let clen_num = du as usize * k + dv as usize;
    let kbar = j(&z, &c.0);
    if c.0.len() != 32 * clen_num {
        proof {
            assert(32 * (du as int * k + dv as int) == 32 * clen_num) by (nonlinear_arith)
                requires
                    clen_num == du as int * k + dv as int,
            ;
        }
        return SharedSecretKey(kbar);
    }
    let dk_pke = take_range(&dk.0, 0, 384 * k);
    let ek_pke = take_range(&dk.0, 384 * k, 768 * k + 32);
    let hh = take_range(&dk.0, 768 * k + 32, 768 * k + 64);
    let m = pke_decrypt(k, du, dv, &dk_pke, &c.0);
    let (k_prime, r_prime) = g(&m, &hh);
    let c_prime = pke_encrypt(k, eta1, eta2, du, dv, &ek_pke, &m, &r_prime);
    let diff = ct_diff(&c.0, &c_prime);
    let out = ct_select(&k_prime, &kbar, diff);
    proof {
        assert(32 * (du as int * k + dv as int) == 32 * clen_num) by (nonlinear_arith)
            requires
                clen_num == du as int * k + dv as int,
        ;
    }
    SharedSecretKey(out)
}

/// Decapsulation is a pure function of the key and ciphertext bytes:
/// two decapsulations of the same inputs return the same secret.
pub proof fn lemma_decaps_deterministic(
    k: int,
    eta1: int,
    eta2: int,
    du: int,
    dv: int,
    dk: Seq<u8>,
    c: Seq<u8>,
    r1: Seq<u8>,
    r2: Seq<u8>,
)
    requires
        r1 == mlkem_decaps_spec(k, eta1, eta2, du, dv, dk, c),
        r2 == mlkem_decaps_spec(k, eta1, eta2, du, dv, dk, c),
    ensures
        r1 == r2,
{
}

/// Implicit rejection depends only on (z, c): two decapsulation keys
/// with the same trailing seed z reject any ciphertext to the same
/// secret, whatever their K-PKE parts.
pub proof fn lemma_implicit_rejection_stability(
    k: int,
    eta1: int,
    eta2: int,
    du: int,
    dv: int,
    dk1: Seq<u8>,
    dk2: Seq<u8>,
    c: Seq<u8>,
)
    requires
        dk1.len() == 768 * k + 96,
        dk2.len() == 768 * k + 96,
        dk1.subrange(768 * k + 64, 768 * k + 96) == dk2.subrange(768 * k + 64, 768 * k + 96),
        c.len() == 32 * (du * k + dv) ==> !decaps_accepts(k, eta1, eta2, du, dv, dk1, c),
        c.len() == 32 * (du * k + dv) ==> !decaps_accepts(k, eta1, eta2, du, dv, dk2, c),
    ensures
        mlkem_decaps_spec(k, eta1, eta2, du, dv, dk1, c) == mlkem_decaps_spec(
            k,
            eta1,
            eta2,
            du,
            dv,
            dk2,
            c,
        ),
{
}

/// The round trip of the FO transform: when decryption recovers the
/// encapsulated message (no decryption failure), decapsulation of a
/// key pair's ciphertext returns exactly the encapsulated secret.
pub proof fn lemma_kem_round_trip(
    k: int,
    eta1: int,
    eta2: int,
    du: int,
    dv: int,
    d: Seq<u8>,
    z: Seq<u8>,
    m: Seq<u8>,
)
    requires
        valid_params(k, eta1, eta2, du, dv),
        d.len() == 32,
        z.len() == 32,
        m.len() == 32,
        pke_decrypt_spec(
            k,
            du,
            dv,
            pke_keygen_dk_spec(k, eta1, d),
            mlkem_encaps_ct_spec(k, eta1, eta2, du, dv, mlkem_ek_spec(k, eta1, d), m),
        ) == m,
        pke_keygen_ek_spec(k, eta1, d).len() == 384 * k + 32,
        pke_keygen_dk_spec(k, eta1, d).len() == 384 * k,
        mlkem_encaps_ct_spec(k, eta1, eta2, du, dv, mlkem_ek_spec(k, eta1, d), m).len() == 32 * (
        du * k + dv),
        sha3_256_of(pke_keygen_ek_spec(k, eta1, d)).len() == 32,
    ensures
        mlkem_decaps_spec(
            k,
            eta1,
            eta2,
            du,
            dv,
            mlkem_dk_spec(k, eta1, d, z),
            mlkem_encaps_ct_spec(k, eta1, eta2, du, dv, mlkem_ek_spec(k, eta1, d), m),
        ) == mlkem_encaps_key_spec(mlkem_ek_spec(k, eta1, d), m),
{
    let ek = pke_keygen_ek_spec(k, eta1, d);
    let dkp = pke_keygen_dk_spec(k, eta1, d);
    let hk = sha3_256_of(ek);
    let dk = dkp + ek + hk + z;
    let c = mlkem_encaps_ct_spec(k, eta1, eta2, du, dv, ek, m);
    assert(dk.subrange(0, 384 * k) =~= dkp);
    assert(dk.subrange(384 * k, 768 * k + 32) =~= ek);
    assert(dk.subrange(768 * k + 32, 768 * k + 64) =~= hk);
    assert(pke_decrypt_spec(k, du, dv, dk.subrange(0, 384 * k), c) == m);
    assert(decaps_accepts(k, eta1, eta2, du, dv, dk, c));
}

} // verus!
