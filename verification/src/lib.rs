//! ML-KEM (FIPS 203): a module-lattice key-encapsulation mechanism.
//!
//! Arithmetic is over the ring Z_q[X]/(X^256 + 1) with q = 3329.  The
//! K-PKE encryption scheme is wrapped by the Fujisaki-Okamoto transform
//! into a CCA-secure KEM with implicit rejection.  Every core operation
//! carries a contract that pins its result as a function of its inputs.

pub mod arithmetic;
pub mod bytes;
pub mod converter;
pub mod hash_utils;
pub mod k_pke;
pub mod ml_kem_internal;
pub mod ntt;
pub mod sample;
pub mod types;

use vstd::prelude::*;

use crate::k_pke::valid_params;
use crate::ml_kem_internal::{ml_kem_decaps_internal, mlkem_decaps_spec};
use crate::types::{CipherText, DecapsKey, SharedSecretKey};

verus! {

/// The coefficient modulus of the ring.
pub const Q: u16 = 3329;

/// The three standardised parameter sets.
pub enum MlKemParams {
    MlKem512,
    MlKem768,
    MlKem1024,
}

/// A parameter-set selection: rank k, noise widths eta1 and eta2, and
/// the ciphertext compression widths du and dv.
pub struct MlKem {
    pub k: usize,
    pub eta1: u8,
    pub eta2: u8,
    pub du: u8,
    pub dv: u8,
}

impl MlKem {
    /// This selection is one of the three standardised sets.
    pub open spec fn wf(&self) -> bool {
        valid_params(self.k as int, self.eta1 as int, self.eta2 as int, self.du as int, self.dv as int)
    }

    /// Select a parameter set.
    pub fn new(params: MlKemParams) -> (r: Self)
        ensures
            r.wf(),
            (match params {
                MlKemParams::MlKem512 => r.k == 2 && r.eta1 == 3 && r.eta2 == 2 && r.du == 10
                    && r.dv == 4,
                MlKemParams::MlKem768 => r.k == 3 && r.eta1 == 2 && r.eta2 == 2 && r.du == 10
                    && r.dv == 4,
                MlKemParams::MlKem1024 => r.k == 4 && r.eta1 == 2 && r.eta2 == 2 && r.du == 11
                    && r.dv == 5,
            }),
    {
        match params {
            MlKemParams::MlKem512 => Self { k: 2, eta1: 3, eta2: 2, du: 10, dv: 4 },
            MlKemParams::MlKem768 => Self { k: 3, eta1: 2, eta2: 2, du: 10, dv: 4 },
            MlKemParams::MlKem1024 => Self { k: 4, eta1: 2, eta2: 2, du: 11, dv: 5 },
        }
    }

    /// Decapsulate a ciphertext.  Never fails: an invalid or
    /// wrong-length ciphertext yields the deterministic implicit-
    /// rejection secret.
    pub fn decaps(&self, dk: &DecapsKey, c: &CipherText) -> (r: SharedSecretKey)
        requires
            self.wf(),
            dk.0@.len() == 768 * self.k + 96,
        ensures
            r.0@ == mlkem_decaps_spec(
                self.k as int,
                self.eta1 as int,
                self.eta2 as int,
                self.du as int,
                self.dv as int,
                dk.0@,
                c.0@,
            ),
            r.0@.len() == 32,
    {
        ml_kem_decaps_internal(
            self.k,
            self.eta1 as usize,
            self.eta2 as usize,
            self.du,
            self.dv,
            dk,
            c,
        )
    }
}

} // verus!
