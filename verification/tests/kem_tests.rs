use ml_kem::ml_kem_internal::{
    ml_kem_decaps_internal, ml_kem_encaps_internal, ml_kem_keygen_internal,
};
use ml_kem::types::{CipherText, DecapsKey, EncapsKey};
use ml_kem::{MlKem, MlKemParams};
use rand_chacha::ChaCha20Rng;
use rand_core::{RngCore, SeedableRng};

fn draw32(rng: &mut ChaCha20Rng) -> Vec<u8> {
    let mut buf = [0u8; 32];
    rng.fill_bytes(&mut buf);
    buf.to_vec()
}

#[test]
fn test_kem_roundtrip() {
    let mut rng = ChaCha20Rng::seed_from_u64(33333);
    let kem = MlKem::new(MlKemParams::MlKem768);

    let d = draw32(&mut rng);
    let z = draw32(&mut rng);
    let (ek, dk) = ml_kem_keygen_internal(kem.k, kem.eta1 as usize, &d, &z);
    let m = draw32(&mut rng);
    let (ssk_enc, ct) = ml_kem_encaps_internal(
        kem.k,
        kem.eta1 as usize,
        kem.eta2 as usize,
        kem.du,
        kem.dv,
        &ek,
        &m,
    );
    let ssk_dec = kem.decaps(&dk, &ct);

    assert_eq!(ssk_enc.into_bytes(), ssk_dec.into_bytes());
}

#[test]
fn test_kem_roundtrip_using_bytes() {
    let mut rng = ChaCha20Rng::seed_from_u64(12345);
    let kem = MlKem::new(MlKemParams::MlKem768);

    let d = draw32(&mut rng);
    let z = draw32(&mut rng);
    let (ek, dk) = ml_kem_keygen_internal(kem.k, kem.eta1 as usize, &d, &z);
    let dk_bytes = dk.into_bytes();
    let create_dk = DecapsKey::from_slice(dk_bytes.as_slice());
    let m = draw32(&mut rng);
    let (ssk_enc, ct) = ml_kem_encaps_internal(
        kem.k,
        kem.eta1 as usize,
        kem.eta2 as usize,
        kem.du,
        kem.dv,
        &ek,
        &m,
    );
    let ssk_dec = kem.decaps(&create_dk, &ct);

    assert_eq!(ssk_enc.into_bytes(), ssk_dec.into_bytes());
}

fn roundtrip_for(params: MlKemParams, seed: u64) -> (MlKem, Vec<u8>, Vec<u8>, Vec<u8>, Vec<u8>) {
    let mut rng = ChaCha20Rng::seed_from_u64(seed);
    let kem = MlKem::new(params);
    let d = draw32(&mut rng);
    let z = draw32(&mut rng);
    let (ek, dk) = ml_kem_keygen_internal(kem.k, kem.eta1 as usize, &d, &z);
    let m = draw32(&mut rng);
    let (ssk, ct) = ml_kem_encaps_internal(
        kem.k,
        kem.eta1 as usize,
        kem.eta2 as usize,
        kem.du,
        kem.dv,
        &ek,
        &m,
    );
    (
        kem,
        ek.into_bytes(),
        dk.into_bytes(),
        ssk.into_bytes(),
        ct.into_bytes(),
    )
}

#[test]
fn test_roundtrip_all_parameter_sets() {
    for (params, seed) in [
        (MlKemParams::MlKem512, 7u64),
        (MlKemParams::MlKem768, 8),
        (MlKemParams::MlKem1024, 9),
    ] {
        let (kem, _ek, dk, ssk, ct) = roundtrip_for(params, seed);
        let out = kem.decaps(
            &DecapsKey::from_slice(dk.as_slice()),
            &CipherText::from_slice(ct.as_slice()),
        );
        assert_eq!(out.into_bytes(), ssk);
    }
}

#[test]
fn test_key_and_ciphertext_lengths() {
    let cases = [
        (MlKemParams::MlKem512, 800usize, 1632usize, 768usize),
        (MlKemParams::MlKem768, 1184, 2400, 1088),
        (MlKemParams::MlKem1024, 1568, 3168, 1568),
    ];
    let mut seed = 100u64;
    for (params, ek_len, dk_len, ct_len) in cases {
        let (_kem, ek, dk, ssk, ct) = roundtrip_for(params, seed);
        assert_eq!(ek.len(), ek_len);
        assert_eq!(dk.len(), dk_len);
        assert_eq!(ct.len(), ct_len);
        assert_eq!(ssk.len(), 32);
        seed += 1;
    }
}

#[test]
fn test_keygen_deterministic() {
    let d = vec![0u8; 32];
    let z = vec![0u8; 32];
    let (ek1, dk1) = ml_kem_keygen_internal(2, 3, &d, &z);
    let (ek2, dk2) = ml_kem_keygen_internal(2, 3, &d, &z);
    let e1 = ek1.into_bytes();
    let e2 = ek2.into_bytes();
    assert_eq!(e1, e2);
    assert_eq!(dk1.into_bytes(), dk2.into_bytes());
    assert_eq!(e1.len(), 800);
}

#[test]
fn test_decaps_deterministic() {
    let (kem, _ek, dk, ssk, ct) = roundtrip_for(MlKemParams::MlKem768, 42);
    let dk1 = DecapsKey::from_slice(dk.as_slice());
    let c1 = CipherText::from_slice(ct.as_slice());
    let out1 = kem.decaps(&dk1, &c1).into_bytes();
    let out2 = kem.decaps(&dk1, &c1).into_bytes();
    assert_eq!(out1, out2);
    assert_eq!(out1, ssk);
}

#[test]
fn test_tampered_ciphertext_rejects() {
    for (params, seed) in [
        (MlKemParams::MlKem512, 21u64),
        (MlKemParams::MlKem768, 22),
        (MlKemParams::MlKem1024, 23),
    ] {
        let (kem, _ek, dk, ssk, ct) = roundtrip_for(params, seed);
        let dkk = DecapsKey::from_slice(dk.as_slice());
        for pos in [0usize, ct.len() / 2, ct.len() - 1] {
            for bit in [0u8, 7] {
                let mut tampered = ct.clone();
                tampered[pos] ^= 1 << bit;
                let out = kem
                    .decaps(&dkk, &CipherText::from_slice(tampered.as_slice()))
                    .into_bytes();
                assert_eq!(out.len(), 32);
                assert_ne!(out, ssk);
            }
        }
    }
}

#[test]
fn test_wrong_length_ciphertext_is_rejected_deterministically() {
    let (kem, _ek, dk, ssk, mut ct) = roundtrip_for(MlKemParams::MlKem512, 55);
    ct.pop();
    let dkk = DecapsKey::from_slice(dk.as_slice());
    let short = CipherText::from_slice(ct.as_slice());
    let out1 = kem.decaps(&dkk, &short).into_bytes();
    let out2 = kem.decaps(&dkk, &short).into_bytes();
    assert_eq!(out1, out2);
    assert_ne!(out1, ssk);
}

#[test]
fn test_wrong_key_decapsulation_differs() {
    let (kem, _ek1, _dk1, ssk, ct) = roundtrip_for(MlKemParams::MlKem768, 61);
    let mut rng = ChaCha20Rng::seed_from_u64(62);
    let d2 = draw32(&mut rng);
    let z2 = draw32(&mut rng);
    let (_ek2, dk2) = ml_kem_keygen_internal(kem.k, kem.eta1 as usize, &d2, &z2);
    let out = kem
        .decaps(&dk2, &CipherText::from_slice(ct.as_slice()))
        .into_bytes();
    assert_ne!(out, ssk);
}

#[test]
fn test_key_serialization_roundtrip() {
    let (_kem, ek, dk, _ssk, ct) = roundtrip_for(MlKemParams::MlKem512, 71);
    assert_eq!(EncapsKey::from_slice(ek.as_slice()).into_bytes(), ek);
    assert_eq!(DecapsKey::from_slice(dk.as_slice()).into_bytes(), dk);
    assert_eq!(CipherText::from_slice(ct.as_slice()).into_bytes(), ct);
}
