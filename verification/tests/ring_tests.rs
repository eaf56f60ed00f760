use ml_kem::hash_utils::g_33;
use ml_kem::ntt::{clone_poly, ntt, ntt_inv, poly_add};
use ml_kem::sample::sample_poly_cbd;

fn sample_poly(seed: u64) -> Vec<u16> {
    let mut out: Vec<u16> = Vec::new();
    let mut state = seed;
    for _ in 0..256 {
        state = state.wrapping_mul(6364136223846793005).wrapping_add(1442695040888963407);
        out.push((state >> 33) as u16 % 3329);
    }
    out
}

#[test]
fn test_ntt_inverse_roundtrip() {
    for seed in [1u64, 2, 3, 99] {
        let p = sample_poly(seed);
        let back = ntt_inv(&ntt(&p));
        assert_eq!(back, p);
    }
}

#[test]
fn test_ntt_linearity() {
    let a = sample_poly(10);
    let b = sample_poly(11);
    let mut sum = clone_poly(&a);
    poly_add(&mut sum, &b);
    let lhs = ntt(&sum);
    let na = ntt(&a);
    let mut rhs = ntt(&b);
    poly_add(&mut rhs, &na);
    assert_eq!(lhs, rhs);
}

#[test]
fn test_cbd_bounds() {
    for eta in [2usize, 3] {
        let mut bytes: Vec<u8> = Vec::new();
        let mut state = 7u64;
        for _ in 0..64 * eta {
            state = state.wrapping_mul(2862933555777941757).wrapping_add(3037000493);
            bytes.push((state >> 56) as u8);
        }
        let poly = sample_poly_cbd(eta, &bytes);
        assert_eq!(poly.len(), 256);
        let mut seen_nonzero = false;
        for &c in &poly {
            assert!(c < 3329);
            assert!(c <= eta as u16 || c >= 3329 - eta as u16);
            if c != 0 {
                seen_nonzero = true;
            }
        }
        assert!(seen_nonzero);
    }
}

#[test]
fn test_seed_expansion_splits_and_depends_on_rank() {
    let seed = vec![0x42u8; 32];
    let (rho2, sigma2) = g_33(&seed, 2);
    let (rho3, sigma3) = g_33(&seed, 3);
    assert_eq!(rho2.len(), 32);
    assert_eq!(sigma2.len(), 32);
    assert_ne!(rho2, sigma2);
    assert_ne!(rho2, rho3);
    assert_ne!(sigma2, sigma3);
    assert_ne!(rho2, seed);
    let (rho2b, sigma2b) = g_33(&seed, 2);
    assert_eq!(rho2, rho2b);
    assert_eq!(sigma2, sigma2b);
}
