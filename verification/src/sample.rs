//! Samplers: uniform NTT-domain rejection sampling from SHAKE-128, and
//! the centered binomial distribution from PRF output.

use vstd::prelude::*;
use crate::converter::stream_bit;
use crate::bytes::concat_bytes;
use crate::hash_utils::{shake128_of, shake128_xof};

verus! {

/// How many bytes of SHAKE-128 output rejection sampling draws from.
/// 448 three-byte groups yield up to 896 candidates; fewer than 256
/// acceptances among them would take acceptance failures beyond any
/// realistic probability, and the remaining coefficients are then zero.
pub const SAMPLE_NTT_BUF: usize = 1344;

/// Number of set bits among the `n` stream bits starting at `pos`.
pub open spec fn bit_count(bytes: Seq<u8>, pos: int, n: int) -> nat
    decreases n,
{
    if n <= 0 {
        0
    } else {
        bit_count(bytes, pos, n - 1) + if stream_bit(bytes, pos + (n - 1)) {
            1nat
        } else {
            0nat
        }
    }
}

/// Coefficient `i` of centered binomial sampling with parameter eta:
/// the difference of two eta-bit Hamming weights, mod q.
pub open spec fn cbd_coeff(bytes: Seq<u8>, eta: int, i: int) -> u16 {
    ((bit_count(bytes, 2 * eta * i, eta) + 3329 - bit_count(bytes, 2 * eta * i + eta, eta))
        % 3329) as u16
}

/// The polynomial sampled from 64 * eta bytes by the centered binomial
/// distribution; coefficients are in normal domain.
pub open spec fn sample_poly_cbd_spec(bytes: Seq<u8>, eta: int) -> Seq<u16> {
    Seq::new(256, |i: int| cbd_coeff(bytes, eta, i))
}

proof fn lemma_bit_count_le(bytes: Seq<u8>, pos: int, n: nat)
    ensures
        bit_count(bytes, pos, n as int) <= n,
    decreases n,
{
    if n > 0 {
        lemma_bit_count_le(bytes, pos, (n - 1) as nat);
    }
}

/// Count the set bits among `n` stream bits starting at bit `pos`.
fn count_bits(bytes: &Vec<u8>, pos: usize, n: usize) -> (r: u16)
    requires
        pos + n <= 8 * bytes@.len(),
        bytes@.len() <= 256,
        n <= 8,
    ensures
        r == bit_count(bytes@, pos as int, n as int),
        r <= n,
{
    let mut acc: u16 = 0;
    let mut j: usize = 0;
    while j < n
        invariant
            pos + n <= 8 * bytes@.len(),
            bytes@.len() <= 256,
            n <= 8,
            j <= n,
            acc == bit_count(bytes@, pos as int, j as int),
            acc <= j,
        decreases n - j,
    {
        let p = pos + j;
        assert(p < 8 * bytes@.len());
        assert(p / 8 < bytes@.len());
        let sh: u8 = (p % 8) as u8;
        let bit_set = (bytes[p / 8] >> sh) & 1 == 1;
        proof {
            assert(sh < 8);
            assert(bit_set == stream_bit(bytes@, p as int));
        }
        if bit_set {
            acc = acc + 1;
        }
        j = j + 1;
    }
    acc
}

/// Sample one polynomial from the centered binomial distribution of
/// parameter eta, reading 2 * eta bits per coefficient.
///
/// Each output coefficient is the canonical representative of a value
/// in [-eta, eta]: it is at most eta or at least q - eta.
pub fn sample_poly_cbd(eta: usize, bytes: &Vec<u8>) -> (r: Vec<u16>)
    requires
        eta == 2 || eta == 3,
        bytes@.len() == 64 * eta,
    ensures
        r@ == sample_poly_cbd_spec(bytes@, eta as int),
        r@.len() == 256,
        forall|i: int| 0 <= i < 256 ==> r@[i] < 3329,
        forall|i: int| 0 <= i < 256 ==> (r@[i] <= eta || r@[i] >= 3329 - eta),
{
    let mut out: Vec<u16> = Vec::new();
    let mut i: usize = 0;
    while i < 256
        invariant
            eta == 2 || eta == 3,
            bytes@.len() == 64 * eta,
            i <= 256,
            out@.len() == i,
            forall|t: int| 0 <= t < i ==> out@[t] == cbd_coeff(bytes@, eta as int, t),
            forall|t: int| 0 <= t < i ==> out@[t] < 3329,
            forall|t: int| 0 <= t < i ==> (out@[t] <= eta || out@[t] >= 3329 - eta),
        decreases 256 - i,
    {
        proof {
            assert(2 * eta * i + 2 * eta <= 512 * eta) by (nonlinear_arith)
                requires
                    i < 256,
                    eta >= 1,
            ;
        }
        let x = count_bits(bytes, 2 * eta * i, eta);
        let y = count_bits(bytes, 2 * eta * i + eta, eta);
        let c: u16 = if x >= y {
            x - y
        } else {
            x + 3329 - y
        };
        proof {
            lemma_bit_count_le(bytes@, 2 * eta as int * i as int, eta as nat);
            lemma_bit_count_le(bytes@, 2 * eta as int * i as int + eta as int, eta as nat);
            assert(c == cbd_coeff(bytes@, eta as int, i as int)) by {
                let bx = bit_count(bytes@, 2 * eta as int * i as int, eta as int) as int;
                let by = bit_count(bytes@, 2 * eta as int * i as int + eta as int, eta as int)
                    as int;
                if x >= y {
                    assert((bx + 3329 - by) % 3329 == bx - by) by (nonlinear_arith)
                        requires
                            0 <= by <= bx <= 3,
                    ;
                } else {
                    assert((bx + 3329 - by) % 3329 == bx + 3329 - by) by (nonlinear_arith)
                        requires
                            0 <= bx < by <= 3,
                    ;
                }
            }
        }
        out.push(c);
        i = i + 1;
    }
    proof {
        assert(out@ =~= sample_poly_cbd_spec(bytes@, eta as int));
    }
    out
}

/// First 12-bit candidate of the three-byte group `gi`.
pub open spec fn ntt_cand_1(bytes: Seq<u8>, gi: int) -> int {
    bytes[3 * gi] + 256 * (bytes[3 * gi + 1] % 16)
}

/// Second 12-bit candidate of the three-byte group `gi`.
pub open spec fn ntt_cand_2(bytes: Seq<u8>, gi: int) -> int {
    bytes[3 * gi + 1] / 16 + 16 * bytes[3 * gi + 2]
}

/// The candidates below q among the first `g` three-byte groups, in
/// stream order.
pub open spec fn accepted(bytes: Seq<u8>, g: int) -> Seq<u16>
    decreases g,
{
    if g <= 0 {
        Seq::empty()
    } else {
        let prev = accepted(bytes, g - 1);
        let s1 = if ntt_cand_1(bytes, g - 1) < 3329 {
            prev.push(ntt_cand_1(bytes, g - 1) as u16)
        } else {
            prev
        };
        if ntt_cand_2(bytes, g - 1) < 3329 {
            s1.push(ntt_cand_2(bytes, g - 1) as u16)
        } else {
            s1
        }
    }
}

/// Truncate to 256 entries, or pad with zero coefficients.
pub open spec fn fill256(s: Seq<u16>) -> Seq<u16> {
    if s.len() >= 256 {
        s.take(256)
    } else {
        s + Seq::new((256 - s.len()) as nat, |i: int| 0u16)
    }
}

/// The NTT-domain polynomial rejection-sampled from a byte stream.
pub open spec fn sample_ntt_spec(bytes: Seq<u8>) -> Seq<u16> {
    fill256(accepted(bytes, bytes.len() as int / 3))
}

/// The XOF input for matrix entry sampling: rho || [a] || [b].
pub open spec fn xof_input(rho: Seq<u8>, a: u8, b: u8) -> Seq<u8> {
    rho + seq![a] + seq![b]
}

proof fn lemma_accepted_prefix(bytes: Seq<u8>, g1: int, g2: int)
    requires
        0 <= g1 <= g2,
    ensures
        accepted(bytes, g1).is_prefix_of(accepted(bytes, g2)),
    decreases g2 - g1,
{
    if g1 < g2 {
        lemma_accepted_prefix(bytes, g1, g2 - 1);
    }
}

/// Rejection-sample a uniform NTT-domain polynomial from
/// SHAKE-128(rho || [a] || [b]).
pub fn sample_ntt(rho: &Vec<u8>, a: u8, b: u8) -> (r: Vec<u16>)
    ensures
        r@ == sample_ntt_spec(shake128_of(xof_input(rho@, a, b), SAMPLE_NTT_BUF as int)),
        r@.len() == 256,
        forall|i: int| 0 <= i < 256 ==> r@[i] < 3329,
{
    let mut suffix: Vec<u8> = Vec::new();
    suffix.push(a);
    suffix.push(b);
    let input = concat_bytes(rho, &suffix);
    proof {
        assert(input@ =~= xof_input(rho@, a, b));
    }
    let buf = shake128_xof(&input, SAMPLE_NTT_BUF);
    let ghost stream = buf@;
    let mut out: Vec<u16> = Vec::new();
    let mut g: usize = 0;
    while g < 448 && out.len() < 256
        invariant
            buf@ == stream,
            stream.len() == 1344,
            g <= 448,
            out@ == accepted(stream, g as int),
            out@.len() <= 257,
            forall|t: int| 0 <= t < out@.len() ==> out@[t] < 3329,
        decreases 448 - g,
    {
        let b0 = buf[3 * g];
        let b1 = buf[3 * g + 1];
        let b2 = buf[3 * g + 2];
        let d1: u16 = b0 as u16 + 256 * (b1 as u16 % 16);
        let d2: u16 = b1 as u16 / 16 + 16 * (b2 as u16);
        if d1 < 3329 {
            out.push(d1);
        }
        if d2 < 3329 {
            out.push(d2);
        }
        g = g + 1;
    }
    proof {
        lemma_accepted_prefix(stream, g as int, 448);
    }
    if out.len() >= 256 {
        out.truncate(256);
        proof {
            let acc = accepted(stream, 448);
            assert(accepted(stream, g as int).is_prefix_of(acc));
            assert(out@ =~= fill256(acc));
        }
    } else {
        assert(g == 448);
        let ghost acc = accepted(stream, 448);
        while out.len() < 256
            invariant
                acc == accepted(stream, 448),
                acc.len() < 256,
                acc.is_prefix_of(out@),
                out@.len() <= 256,
                acc.len() <= out@.len(),
                forall|t: int| acc.len() <= t < out@.len() ==> out@[t] == 0u16,
                forall|t: int| 0 <= t < out@.len() ==> out@[t] < 3329,
            decreases 256 - out@.len(),
        {
            out.push(0u16);
        }
        proof {
            assert(out@ =~= fill256(acc));
        }
    }
    out
}

} // verus!
