//! Modular arithmetic on coefficients of Z_q, q = 3329.
//!
//! All operations take canonical representatives in [0, q) and return
//! canonical representatives.  Reduction is by a single conditional
//! subtraction or a widening multiply; no operation branches on more
//! than the carry structure of public, already-reduced values.

use vstd::prelude::*;

verus! {

/// Canonical sum in Z_q, as a mathematical function.
pub open spec fn addq(a: int, b: int) -> u16 {
    ((a + b) % 3329) as u16
}

/// Canonical difference in Z_q, as a mathematical function.
pub open spec fn subq(a: int, b: int) -> u16 {
    ((a + 3329 - b) % 3329) as u16
}

/// Canonical product in Z_q, as a mathematical function.
pub open spec fn mulq(a: int, b: int) -> u16 {
    ((a * b) % 3329) as u16
}

/// Addition in Z_q on canonical representatives.
pub fn mod_q_add(a: u16, b: u16) -> (r: u16)
    requires
        a < 3329,
        b < 3329,
    ensures
        r == (a + b) % 3329,
        r == addq(a as int, b as int),
        r < 3329,
{
    let sum = a + b;
    if sum >= 3329 {
        sum - 3329
    } else {
        sum
    }
}

/// Subtraction in Z_q on canonical representatives.
pub fn mod_q_sub(a: u16, b: u16) -> (r: u16)
    requires
        a < 3329,
        b < 3329,
    ensures
        r == (a + 3329 - b) % 3329,
        r == subq(a as int, b as int),
        r < 3329,
{
    if a >= b {
        a - b
    } else {
        a + 3329 - b
    }
}

/// Multiplication in Z_q on canonical representatives, through a
/// 32-bit intermediate product.
pub fn mod_q_mul(a: u16, b: u16) -> (r: u16)
    requires
        a < 3329,
        b < 3329,
    ensures
        r == (a * b) % 3329,
        r == mulq(a as int, b as int),
        r < 3329,
{
    proof {
        assert(a * b < 3329 * 3329) by (nonlinear_arith)
            requires
                a < 3329,
                b < 3329,
        ;
    }
    ((a as u32 * b as u32) % 3329) as u16
}

} // verus!
