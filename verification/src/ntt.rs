//! The number-theoretic transform and polynomial algebra over R_q.
//!
//! zeta = 17 is a primitive 256-th root of unity mod q.  The forward
//! transform is seven layers of Cooley-Tukey butterflies; the inverse
//! is seven Gentleman-Sande layers followed by scaling with
//! 3303 = 128^-1 mod q.  NTT-domain products are 128 base-case
//! products in Z_q[X]/(X^2 - gamma_i).

use vstd::prelude::*;
use vstd::arithmetic::div_mod::*;
use crate::arithmetic::{addq, mod_q_add, mod_q_mul, mod_q_sub, mulq, subq};

verus! {

/// A well-formed polynomial: 256 canonical coefficients.
pub open spec fn is_poly(s: Seq<u16>) -> bool {
    &&& s.len() == 256
    &&& forall|i: int| 0 <= i < 256 ==> s[i] < 3329
}

/// A well-formed vector of `k` polynomials.
pub open spec fn is_polyvec(s: Seq<Seq<u16>>, k: int) -> bool {
    &&& s.len() == k
    &&& forall|i: int| 0 <= i < k ==> is_poly(#[trigger] s[i])
}

/// A well-formed `k` by `k` matrix of polynomials.
pub open spec fn is_polymat(m: Seq<Seq<Seq<u16>>>, k: int) -> bool {
    &&& m.len() == k
    &&& forall|i: int| 0 <= i < k ==> is_polyvec(#[trigger] m[i], k)
}

/// Powers of zeta = 17, reduced mod q at every step.
pub open spec fn pow17(e: nat) -> int
    decreases e,
{
    if e == 0 {
        1int
    } else {
        (17 * pow17((e - 1) as nat)) % 3329
    }
}

/// Reversal of the low seven bits of an index.
pub open spec fn bitrev7(k: int) -> int {
    64 * (k % 2) + 32 * ((k / 2) % 2) + 16 * ((k / 4) % 2) + 8 * ((k / 8) % 2) + 4 * ((k / 16) % 2)
        + 2 * ((k / 32) % 2) + (k / 64) % 2
}

/// The butterfly root for index `k`: zeta^BitRev7(k).
pub open spec fn zeta_of(k: int) -> int {
    pow17(bitrev7(k) as nat)
}

/// The base-case modulus root for pair `i`: zeta^(2 BitRev7(i) + 1).
pub open spec fn gamma_of(i: int) -> int {
    pow17((2 * bitrev7(i) + 1) as nat)
}

/// Compute zeta^e by repeated multiplication.
fn pow17_exec(e: usize) -> (r: u16)
    requires
        e <= 255,
    ensures
        r == pow17(e as nat),
        r < 3329,
{
    let mut acc: u16 = 1;
    let mut t: usize = 0;
    while t < e
        invariant
            t <= e,
            acc == pow17(t as nat),
            acc < 3329,
        decreases e - t,
    {
        acc = mod_q_mul(17, acc);
        t = t + 1;
    }
    acc
}

/// Reverse the low seven bits of an index below 128.
fn bitrev7_exec(k: usize) -> (r: usize)
    requires
        k < 128,
    ensures
        r == bitrev7(k as int),
        r < 128,
{
    64 * (k % 2) + 32 * ((k / 2) % 2) + 16 * ((k / 4) % 2) + 8 * ((k / 8) % 2) + 4 * ((k / 16) % 2)
        + 2 * ((k / 32) % 2) + (k / 64) % 2
}

/// The table zetas[k] = zeta^BitRev7(k) for k in 0..128.
fn zeta_table() -> (r: Vec<u16>)
    ensures
        r@.len() == 128,
        forall|k: int| 0 <= k < 128 ==> r@[k] == zeta_of(k),
        forall|k: int| 0 <= k < 128 ==> r@[k] < 3329,
{
    let mut out: Vec<u16> = Vec::new();
    let mut k: usize = 0;
    while k < 128
        invariant
            k <= 128,
            out@.len() == k,
            forall|t: int| 0 <= t < k ==> out@[t] == zeta_of(t),
            forall|t: int| 0 <= t < k ==> out@[t] < 3329,
        decreases 128 - k,
    {
        let e = bitrev7_exec(k);
        out.push(pow17_exec(e));
        k = k + 1;
    }
    out
}

/// The table gammas[i] = zeta^(2 BitRev7(i) + 1) for i in 0..128.
fn gamma_table() -> (r: Vec<u16>)
    ensures
        r@.len() == 128,
        forall|k: int| 0 <= k < 128 ==> r@[k] == gamma_of(k),
        forall|k: int| 0 <= k < 128 ==> r@[k] < 3329,
{
    let mut out: Vec<u16> = Vec::new();
    let mut k: usize = 0;
    while k < 128
        invariant
            k <= 128,
            out@.len() == k,
            forall|t: int| 0 <= t < k ==> out@[t] == gamma_of(t),
            forall|t: int| 0 <= t < k ==> out@[t] < 3329,
        decreases 128 - k,
    {
        let e = bitrev7_exec(k);
        out.push(pow17_exec(2 * e + 1));
        k = k + 1;
    }
    out
}

/// Copy a polynomial.
pub fn clone_poly(f: &Vec<u16>) -> (r: Vec<u16>)
    ensures
        r@ == f@,
{
    let mut out: Vec<u16> = Vec::new();
    let mut i: usize = 0;
    while i < f.len()
        invariant
            i <= f@.len(),
            out@ == f@.take(i as int),
        decreases f@.len() - i,
    {
        out.push(f[i]);
        proof {
            assert(f@.take(i + 1) =~= f@.take(i as int).push(f@[i as int]));
        }
        i = i + 1;
    }
    proof {
        assert(f@.take(f@.len() as int) =~= f@);
    }
    out
}

/// One Cooley-Tukey butterfly layer of stride `len`.
#[verifier::opaque]
pub open spec fn ct_layer(f: Seq<u16>, len: int) -> Seq<u16> {
    Seq::new(
        256,
        |p: int|
            {
                let blk = p / (2 * len);
                let pos = p % (2 * len);
                if pos < len {
                    addq(f[p] as int, mulq(zeta_of(128int / len + blk), f[p + len] as int) as int)
                } else {
                    subq(f[p - len] as int, mulq(zeta_of(128int / len + blk), f[p] as int) as int)
                }
            },
    )
}

/// The stride of forward layer `l`: 128 for the first, halving after.
pub open spec fn ct_stride(l: int) -> int {
    if l == 1 {
        128
    } else if l == 2 {
        64
    } else if l == 3 {
        32
    } else if l == 4 {
        16
    } else if l == 5 {
        8
    } else if l == 6 {
        4
    } else {
        2
    }
}

/// The first `l` forward layers (strides 128, 64, ..).
pub open spec fn ntt_layers(f: Seq<u16>, l: int) -> Seq<u16>
    decreases l,
{
    if l <= 0 {
        f
    } else {
        ct_layer(ntt_layers(f, l - 1), ct_stride(l))
    }
}

/// The forward number-theoretic transform.
pub open spec fn ntt_spec(f: Seq<u16>) -> Seq<u16> {
    ntt_layers(f, 7)
}

/// One Gentleman-Sande butterfly layer of stride `len`.
#[verifier::opaque]
pub open spec fn gs_layer(f: Seq<u16>, len: int) -> Seq<u16> {
    Seq::new(
        256,
        |p: int|
            {
                let blk = p / (2 * len);
                let pos = p % (2 * len);
                if pos < len {
                    addq(f[p] as int, f[p + len] as int)
                } else {
                    mulq(
                        zeta_of(2 * (128int / len) - 1 - blk),
                        subq(f[p] as int, f[p - len] as int) as int,
                    )
                }
            },
    )
}

/// The first `l` inverse layers (strides 2, 4, ..).
pub open spec fn gs_layers(f: Seq<u16>, l: int) -> Seq<u16>
    decreases l,
{
    if l <= 0 {
        f
    } else {
        gs_layer(gs_layers(f, l - 1), ct_stride(8 - l))
    }
}

/// The inverse number-theoretic transform, including the final scaling
/// by 128^-1 mod q.
pub open spec fn ntt_inv_spec(f: Seq<u16>) -> Seq<u16> {
    Seq::new(256, |i: int| mulq(3303, gs_layers(f, 7)[i] as int))
}

/// Apply one forward butterfly layer in place.
#[verifier::rlimit(30)]
fn ntt_ct_layer(g: &mut Vec<u16>, zetas: &Vec<u16>, len: usize)
    requires
        len == 2 || len == 4 || len == 8 || len == 16 || len == 32 || len == 64 || len == 128,
        is_poly(old(g)@),
        zetas@.len() == 128,
        forall|k: int| 0 <= k < 128 ==> zetas@[k] == zeta_of(k),
        forall|k: int| 0 <= k < 128 ==> zetas@[k] < 3329,
    ensures
        final(g)@ == ct_layer(old(g)@, len as int),
        is_poly(final(g)@),
{
    let ghost orig = g@;
    let ghost lspec = ct_layer(orig, len as int);
    proof {
        reveal(ct_layer);
        assert(lspec.len() == 256);
    }
    let mut blk: usize = 0;
    let mut start: usize = 0;
    while start < 256
        invariant
            len == 2 || len == 4 || len == 8 || len == 16 || len == 32 || len == 64 || len == 128,
            is_poly(orig),
            lspec == ct_layer(orig, len as int),
            lspec.len() == 256,
            start == 2 * len * blk,
            start <= 256,
            g@.len() == 256,
            zetas@.len() == 128,
            forall|k: int| 0 <= k < 128 ==> zetas@[k] == zeta_of(k),
            forall|k: int| 0 <= k < 128 ==> zetas@[k] < 3329,
            forall|p: int| 0 <= p < start ==> g@[p] == lspec[p],
            forall|p: int| start <= p < 256 ==> g@[p] == orig[p],
            forall|p: int| 0 <= p < 256 ==> g@[p] < 3329,
        decreases 256 - start,
    {
        proof {
            assert(start + 2 * len <= 256 && blk < 128int / len as int && 128int / len as int
                + blk < 128) by (nonlinear_arith)
                requires
                    start == 2 * len * blk,
                    start < 256,
                    len == 2 || len == 4 || len == 8 || len == 16 || len == 32 || len == 64 || len
                        == 128,
            ;
        }
        let zi = 128 / len + blk;
        let z = zetas[zi];
        let mut j = start;
        while j < start + len
            invariant
                len == 2 || len == 4 || len == 8 || len == 16 || len == 32 || len == 64 || len
                    == 128,
                is_poly(orig),
                lspec == ct_layer(orig, len as int),
                lspec.len() == 256,
                start == 2 * len * blk,
                start + 2 * len <= 256,
                start <= j <= start + len,
                g@.len() == 256,
                z == zeta_of(128int / len as int + blk as int),
                z < 3329,
                forall|p: int| 0 <= p < start ==> g@[p] == lspec[p],
                forall|p: int| start <= p < j ==> g@[p] == lspec[p],
                forall|p: int| start + len <= p < j + len ==> g@[p] == lspec[p],
                forall|p: int| j <= p < start + len ==> g@[p] == orig[p],
                forall|p: int| j + len <= p < 256 ==> g@[p] == orig[p],
                forall|p: int| 0 <= p < 256 ==> g@[p] < 3329,
            decreases start + len - j,
        {
            let t = mod_q_mul(z, g[j + len]);
            let aj = g[j];
            let new_j = mod_q_add(aj, t);
            let new_jl = mod_q_sub(aj, t);
            g[j] = new_j;
            g[j + len] = new_jl;
            proof {
                reveal(ct_layer);
                assert(j as int == blk as int * (2 * len as int) + (j as int - start as int)
                    && j as int + len as int == blk as int * (2 * len as int) + (j as int
                    - start as int + len as int)) by (nonlinear_arith)
                    requires
                        start == 2 * len * blk,
                        start <= j,
                ;
                lemma_fundamental_div_mod_converse(
                    j as int,
                    2 * len as int,
                    blk as int,
                    j as int - start as int,
                );
                lemma_fundamental_div_mod_converse(
                    j as int + len as int,
                    2 * len as int,
                    blk as int,
                    j as int - start as int + len as int,
                );
                assert(lspec[j as int] == addq(
                    orig[j as int] as int,
                    mulq(zeta_of(128int / len as int + blk as int), orig[j as int + len] as int)
                        as int,
                ));
                assert(g@[j as int] == lspec[j as int]);
                assert(g@[j as int + len] == lspec[j as int + len]);
            }
            j = j + 1;
        }
        proof {
            assert(2 * len * (blk + 1) == start + 2 * len) by (nonlinear_arith)
                requires
                    start == 2 * len * blk,
            ;
        }
        blk = blk + 1;
        start = start + 2 * len;
    }
    proof {
        assert(g@ =~= lspec);
    }
}

/// Apply one inverse butterfly layer in place.
#[verifier::rlimit(30)]
fn ntt_gs_layer(g: &mut Vec<u16>, zetas: &Vec<u16>, len: usize)
    requires
        len == 2 || len == 4 || len == 8 || len == 16 || len == 32 || len == 64 || len == 128,
        is_poly(old(g)@),
        zetas@.len() == 128,
        forall|k: int| 0 <= k < 128 ==> zetas@[k] == zeta_of(k),
        forall|k: int| 0 <= k < 128 ==> zetas@[k] < 3329,
    ensures
        final(g)@ == gs_layer(old(g)@, len as int),
        is_poly(final(g)@),
{
    let ghost orig = g@;
    let ghost lspec = gs_layer(orig, len as int);
    proof {
        reveal(gs_layer);
        assert(lspec.len() == 256);
    }
    let mut blk: usize = 0;
    let mut start: usize = 0;
    while start < 256
        invariant
            len == 2 || len == 4 || len == 8 || len == 16 || len == 32 || len == 64 || len == 128,
            is_poly(orig),
            lspec == gs_layer(orig, len as int),
            lspec.len() == 256,
            start == 2 * len * blk,
            start <= 256,
            g@.len() == 256,
            zetas@.len() == 128,
            forall|k: int| 0 <= k < 128 ==> zetas@[k] == zeta_of(k),
            forall|k: int| 0 <= k < 128 ==> zetas@[k] < 3329,
            forall|p: int| 0 <= p < start ==> g@[p] == lspec[p],
            forall|p: int| start <= p < 256 ==> g@[p] == orig[p],
            forall|p: int| 0 <= p < 256 ==> g@[p] < 3329,
        decreases 256 - start,
    {
        proof {
            assert(start + 2 * len <= 256 && blk < 128int / len as int && 0 <= 2 * (128int
                / len as int) - 1 - blk < 128) by (nonlinear_arith)
                requires
                    start == 2 * len * blk,
                    start < 256,
                    len == 2 || len == 4 || len == 8 || len == 16 || len == 32 || len == 64 || len
                        == 128,
            ;
        }
        let zi = 2 * (128 / len) - 1 - blk;
        let z = zetas[zi];
        let mut j = start;
        while j < start + len
            invariant
                len == 2 || len == 4 || len == 8 || len == 16 || len == 32 || len == 64 || len
                    == 128,
                is_poly(orig),
                lspec == gs_layer(orig, len as int),
                lspec.len() == 256,
                start == 2 * len * blk,
                start + 2 * len <= 256,
                start <= j <= start + len,
                g@.len() == 256,
                z == zeta_of(2 * (128int / len as int) - 1 - blk as int),
                z < 3329,
                forall|p: int| 0 <= p < start ==> g@[p] == lspec[p],
                forall|p: int| start <= p < j ==> g@[p] == lspec[p],
                forall|p: int| start + len <= p < j + len ==> g@[p] == lspec[p],
                forall|p: int| j <= p < start + len ==> g@[p] == orig[p],
                forall|p: int| j + len <= p < 256 ==> g@[p] == orig[p],
                forall|p: int| 0 <= p < 256 ==> g@[p] < 3329,
            decreases start + len - j,
        {
            let aj = g[j];
            let ajl = g[j + len];
            let new_j = mod_q_add(aj, ajl);
            let new_jl = mod_q_mul(z, mod_q_sub(ajl, aj));
            g[j] = new_j;
            g[j + len] = new_jl;
            proof {
                reveal(gs_layer);
                assert(j as int == blk as int * (2 * len as int) + (j as int - start as int)
                    && j as int + len as int == blk as int * (2 * len as int) + (j as int
                    - start as int + len as int)) by (nonlinear_arith)
                    requires
                        start == 2 * len * blk,
                        start <= j,
                ;
                lemma_fundamental_div_mod_converse(
                    j as int,
                    2 * len as int,
                    blk as int,
                    j as int - start as int,
                );
                lemma_fundamental_div_mod_converse(
                    j as int + len as int,
                    2 * len as int,
                    blk as int,
                    j as int - start as int + len as int,
                );
                assert(g@[j as int] == lspec[j as int]);
                assert(g@[j as int + len] == lspec[j as int + len]);
            }
            j = j + 1;
        }
        proof {
            assert(2 * len * (blk + 1) == start + 2 * len) by (nonlinear_arith)
                requires
                    start == 2 * len * blk,
            ;
        }
        blk = blk + 1;
        start = start + 2 * len;
    }
    proof {
        assert(g@ =~= lspec);
    }
}

/// Forward NTT of a polynomial in normal domain.
#[verifier::rlimit(30)]
pub fn ntt(f: &Vec<u16>) -> (r: Vec<u16>)
    requires
        is_poly(f@),
    ensures
        r@ == ntt_spec(f@),
        is_poly(r@),
{
    let zetas = zeta_table();
    let mut g = clone_poly(f);
    ntt_ct_layer(&mut g, &zetas, 128);
    proof {
        assert(ntt_layers(f@, 0) == f@);
        assert(g@ == ntt_layers(f@, 1));
    }
    ntt_ct_layer(&mut g, &zetas, 64);
    proof {
        assert(g@ == ntt_layers(f@, 2));
    }
    ntt_ct_layer(&mut g, &zetas, 32);
    proof {
        assert(g@ == ntt_layers(f@, 3));
    }
    ntt_ct_layer(&mut g, &zetas, 16);
    proof {
        assert(g@ == ntt_layers(f@, 4));
    }
    ntt_ct_layer(&mut g, &zetas, 8);
    proof {
        assert(g@ == ntt_layers(f@, 5));
    }
    ntt_ct_layer(&mut g, &zetas, 4);
    proof {
        assert(g@ == ntt_layers(f@, 6));
    }
    ntt_ct_layer(&mut g, &zetas, 2);
    proof {
        assert(g@ == ntt_layers(f@, 7));
    }
    g
}

/// Inverse NTT back to normal domain, with the 128^-1 scaling.
#[verifier::rlimit(30)]
pub fn ntt_inv(f: &Vec<u16>) -> (r: Vec<u16>)
    requires
        is_poly(f@),
    ensures
        r@ == ntt_inv_spec(f@),
        is_poly(r@),
{
    let zetas = zeta_table();
    let mut g = clone_poly(f);
    ntt_gs_layer(&mut g, &zetas, 2);
    proof {
        assert(gs_layers(f@, 0) == f@);
        assert(g@ == gs_layers(f@, 1));
    }
    ntt_gs_layer(&mut g, &zetas, 4);
    proof {
        assert(g@ == gs_layers(f@, 2));
    }
    ntt_gs_layer(&mut g, &zetas, 8);
    proof {
        assert(g@ == gs_layers(f@, 3));
    }
    ntt_gs_layer(&mut g, &zetas, 16);
    proof {
        assert(g@ == gs_layers(f@, 4));
    }
    ntt_gs_layer(&mut g, &zetas, 32);
    proof {
        assert(g@ == gs_layers(f@, 5));
    }
    ntt_gs_layer(&mut g, &zetas, 64);
    proof {
        assert(g@ == gs_layers(f@, 6));
    }
    ntt_gs_layer(&mut g, &zetas, 128);
    proof {
        assert(g@ == gs_layers(f@, 7));
    }
    let ghost pre = g@;
    let mut i: usize = 0;
    while i < 256
        invariant
            pre == gs_layers(f@, 7),
            g@.len() == 256,
            i <= 256,
            forall|p: int| 0 <= p < i ==> g@[p] == mulq(3303, pre[p] as int),
            forall|p: int| i <= p < 256 ==> g@[p] == pre[p],
            forall|p: int| 0 <= p < 256 ==> g@[p] < 3329,
        decreases 256 - i,
    {
        let v = mod_q_mul(3303, g[i]);
        g[i] = v;
        i = i + 1;
    }
    proof {
        assert(g@ =~= ntt_inv_spec(f@));
    }
    g
}

/// NTT-domain product: 128 base-case products of degree-one pairs.
#[verifier::opaque]
pub open spec fn bcm_spec(a: Seq<u16>, b: Seq<u16>) -> Seq<u16> {
    Seq::new(
        256,
        |p: int|
            {
                let i = p / 2;
                if p % 2 == 0 {
                    addq(
                        mulq(a[2 * i] as int, b[2 * i] as int) as int,
                        mulq(
                            mulq(a[2 * i + 1] as int, b[2 * i + 1] as int) as int,
                            gamma_of(i),
                        ) as int,
                    )
                } else {
                    addq(
                        mulq(a[2 * i] as int, b[2 * i + 1] as int) as int,
                        mulq(a[2 * i + 1] as int, b[2 * i] as int) as int,
                    )
                }
            },
    )
}

/// Multiply two NTT-domain polynomials pairwise.
pub fn base_case_multiply(a: &Vec<u16>, b: &Vec<u16>) -> (r: Vec<u16>)
    requires
        is_poly(a@),
        is_poly(b@),
    ensures
        r@ == bcm_spec(a@, b@),
        is_poly(r@),
{
    let gammas = gamma_table();
    proof {
        reveal(bcm_spec);
        assert(bcm_spec(a@, b@).len() == 256);
    }
    let mut out: Vec<u16> = Vec::new();
    let mut i: usize = 0;
    while i < 128
        invariant
            is_poly(a@),
            is_poly(b@),
            gammas@.len() == 128,
            forall|k: int| 0 <= k < 128 ==> gammas@[k] == gamma_of(k),
            forall|k: int| 0 <= k < 128 ==> gammas@[k] < 3329,
            i <= 128,
            bcm_spec(a@, b@).len() == 256,
            out@.len() == 2 * i,
            forall|p: int| 0 <= p < 2 * i ==> out@[p] == bcm_spec(a@, b@)[p],
            forall|p: int| 0 <= p < 2 * i ==> out@[p] < 3329,
        decreases 128 - i,
    {
        let a0 = a[2 * i];
        let a1 = a[2 * i + 1];
        let b0 = b[2 * i];
        let b1 = b[2 * i + 1];
        let gam = gammas[i];
        let c0 = mod_q_add(mod_q_mul(a0, b0), mod_q_mul(mod_q_mul(a1, b1), gam));
        let c1 = mod_q_add(mod_q_mul(a0, b1), mod_q_mul(a1, b0));
        out.push(c0);
        out.push(c1);
        proof {
            reveal(bcm_spec);
            lemma_fundamental_div_mod_converse(2 * i as int, 2, i as int, 0);
            lemma_fundamental_div_mod_converse(2 * i as int + 1, 2, i as int, 1);
            assert(out@[2 * i as int] == bcm_spec(a@, b@)[2 * i as int]);
            assert(out@[2 * i as int + 1] == bcm_spec(a@, b@)[2 * i as int + 1]);
        }
        i = i + 1;
    }
    proof {
        assert(out@ =~= bcm_spec(a@, b@));
    }
    out
}

/// Coefficient-wise sum of two polynomials.
pub open spec fn poly_add_spec(a: Seq<u16>, b: Seq<u16>) -> Seq<u16> {
    Seq::new(256, |i: int| addq(a[i] as int, b[i] as int))
}

/// Coefficient-wise difference of two polynomials.
pub open spec fn poly_sub_spec(a: Seq<u16>, b: Seq<u16>) -> Seq<u16> {
    Seq::new(256, |i: int| subq(a[i] as int, b[i] as int))
}

/// Add `b` into `a`, coefficient-wise.
pub fn poly_add(a: &mut Vec<u16>, b: &Vec<u16>)
    requires
        is_poly(old(a)@),
        is_poly(b@),
    ensures
        final(a)@ == poly_add_spec(old(a)@, b@),
        is_poly(final(a)@),
{
    let ghost orig = a@;
    let mut i: usize = 0;
    while i < 256
        invariant
            is_poly(orig),
            is_poly(b@),
            a@.len() == 256,
            i <= 256,
            forall|p: int| 0 <= p < i ==> a@[p] == addq(orig[p] as int, b@[p] as int),
            forall|p: int| i <= p < 256 ==> a@[p] == orig[p],
            forall|p: int| 0 <= p < 256 ==> a@[p] < 3329,
        decreases 256 - i,
    {
        let v = mod_q_add(a[i], b[i]);
        a[i] = v;
        i = i + 1;
    }
    proof {
        assert(a@ =~= poly_add_spec(orig, b@));
    }
}

/// Coefficient-wise difference, returning a new polynomial.
pub fn poly_sub(a: &Vec<u16>, b: &Vec<u16>) -> (r: Vec<u16>)
    requires
        is_poly(a@),
        is_poly(b@),
    ensures
        r@ == poly_sub_spec(a@, b@),
        is_poly(r@),
{
    let mut out: Vec<u16> = Vec::new();
    let mut i: usize = 0;
    while i < 256
        invariant
            is_poly(a@),
            is_poly(b@),
            i <= 256,
            out@.len() == i,
            forall|p: int| 0 <= p < i ==> out@[p] == subq(a@[p] as int, b@[p] as int),
            forall|p: int| 0 <= p < i ==> out@[p] < 3329,
        decreases 256 - i,
    {
        out.push(mod_q_sub(a[i], b[i]));
        i = i + 1;
    }
    proof {
        assert(out@ =~= poly_sub_spec(a@, b@));
    }
    out
}

/// The zero polynomial.
pub open spec fn zero_poly() -> Seq<u16> {
    Seq::new(256, |i: int| 0u16)
}

/// Dot product of two vectors of NTT-domain polynomials: the sum of
/// the pairwise base-case products of the first `n` entries.
pub open spec fn pvm_spec(a: Seq<Seq<u16>>, b: Seq<Seq<u16>>, n: int) -> Seq<u16>
    decreases n,
{
    if n <= 0 {
        zero_poly()
    } else {
        poly_add_spec(pvm_spec(a, b, n - 1), bcm_spec(a[n - 1], b[n - 1]))
    }
}

proof fn lemma_pvm_is_poly(a: Seq<Seq<u16>>, b: Seq<Seq<u16>>, n: int)
    ensures
        is_poly(pvm_spec(a, b, n)),
    decreases n,
{
    if n <= 0 {
    } else {
        lemma_pvm_is_poly(a, b, n - 1);
    }
}


/// Dot product of two polynomial vectors in NTT domain.
pub fn poly_vec_mult(a: &Vec<Vec<u16>>, b: &Vec<Vec<u16>>) -> (r: Vec<u16>)
    requires
        a@.len() == b@.len(),
        is_polyvec(a.deep_view(), a@.len() as int),
        is_polyvec(b.deep_view(), b@.len() as int),
    ensures
        r@ == pvm_spec(a.deep_view(), b.deep_view(), a@.len() as int),
        is_poly(r@),
{
    let k = a.len();
    let mut acc: Vec<u16> = Vec::new();
    let mut t: usize = 0;
    while t < 256
        invariant
            t <= 256,
            acc@.len() == t,
            forall|p: int| 0 <= p < t ==> acc@[p] == 0u16,
        decreases 256 - t,
    {
        acc.push(0u16);
        t = t + 1;
    }
    proof {
        assert(acc@ =~= zero_poly());
        assert(acc@ == pvm_spec(a.deep_view(), b.deep_view(), 0));
    }
    let mut i: usize = 0;
    while i < k
        invariant
            k == a@.len(),
            a@.len() == b@.len(),
            is_polyvec(a.deep_view(), k as int),
            is_polyvec(b.deep_view(), k as int),
            i <= k,
            acc@ == pvm_spec(a.deep_view(), b.deep_view(), i as int),
            is_poly(acc@),
        decreases k - i,
    {
        proof {
            assert(a.deep_view()[i as int] =~= a@[i as int]@);
            assert(b.deep_view()[i as int] =~= b@[i as int]@);
        }
        let prod = base_case_multiply(&a[i], &b[i]);
        poly_add(&mut acc, &prod);
        i = i + 1;
    }
    acc
}

/// Sum of two vectors of polynomials, entry-wise.
pub open spec fn poly_vec_add_spec(a: Seq<Seq<u16>>, b: Seq<Seq<u16>>, k: int) -> Seq<Seq<u16>> {
    Seq::new(k as nat, |i: int| poly_add_spec(a[i], b[i]))
}

/// Add two polynomial vectors entry-wise.
pub fn poly_vec_add(a: &Vec<Vec<u16>>, b: &Vec<Vec<u16>>) -> (r: Vec<Vec<u16>>)
    requires
        a@.len() == b@.len(),
        is_polyvec(a.deep_view(), a@.len() as int),
        is_polyvec(b.deep_view(), b@.len() as int),
    ensures
        r.deep_view() == poly_vec_add_spec(a.deep_view(), b.deep_view(), a@.len() as int),
        is_polyvec(r.deep_view(), a@.len() as int),
{
    let k = a.len();
    let mut out: Vec<Vec<u16>> = Vec::new();
    let mut i: usize = 0;
    while i < k
        invariant
            k == a@.len(),
            a@.len() == b@.len(),
            is_polyvec(a.deep_view(), k as int),
            is_polyvec(b.deep_view(), k as int),
            i <= k,
            out@.len() == i,
            forall|t: int|
                0 <= t < i ==> (#[trigger] out@[t])@ == poly_add_spec(
                    a.deep_view()[t],
                    b.deep_view()[t],
                ),
        decreases k - i,
    {
        proof {
            assert(a.deep_view()[i as int] =~= a@[i as int]@);
            assert(b.deep_view()[i as int] =~= b@[i as int]@);
        }
        let mut s = clone_poly(&a[i]);
        poly_add(&mut s, &b[i]);
        out.push(s);
        i = i + 1;
    }
    proof {
        assert forall|t: int| 0 <= t < k implies #[trigger] out.deep_view()[t] == poly_add_spec(
            a.deep_view()[t],
            b.deep_view()[t],
        ) by {
            assert(out@[t].deep_view() =~= out@[t]@);
        }
        assert(out.deep_view() =~= poly_vec_add_spec(a.deep_view(), b.deep_view(), k as int));
    }
    out
}

/// The matrix product `m * v` in NTT domain, row by row.
pub open spec fn poly_mat_mult_spec(m: Seq<Seq<Seq<u16>>>, v: Seq<Seq<u16>>, k: int) -> Seq<
    Seq<u16>,
> {
    Seq::new(k as nat, |i: int| pvm_spec(m[i], v, k))
}

/// Matrix times vector, all in NTT domain.
pub fn poly_mat_mult(m: &Vec<Vec<Vec<u16>>>, v: &Vec<Vec<u16>>) -> (r: Vec<Vec<u16>>)
    requires
        m@.len() == v@.len(),
        is_polymat(m.deep_view(), m@.len() as int),
        is_polyvec(v.deep_view(), v@.len() as int),
    ensures
        r.deep_view() == poly_mat_mult_spec(m.deep_view(), v.deep_view(), m@.len() as int),
        is_polyvec(r.deep_view(), m@.len() as int),
{
    let k = m.len();
    let mut out: Vec<Vec<u16>> = Vec::new();
    let mut i: usize = 0;
    while i < k
        invariant
            k == m@.len(),
            m@.len() == v@.len(),
            is_polymat(m.deep_view(), k as int),
            is_polyvec(v.deep_view(), k as int),
            i <= k,
            out@.len() == i,
            forall|t: int|
                0 <= t < i ==> (#[trigger] out@[t])@ == pvm_spec(
                    m.deep_view()[t],
                    v.deep_view(),
                    k as int,
                ),
        decreases k - i,
    {
        proof {
            assert(m.deep_view()[i as int] =~= m@[i as int].deep_view());
            assert(m@[i as int]@.len() == m@[i as int].deep_view().len());
        }
        let row = poly_vec_mult(&m[i], v);
        out.push(row);
        i = i + 1;
    }
    proof {
        assert forall|t: int| 0 <= t < k implies #[trigger] out.deep_view()[t] == pvm_spec(
            m.deep_view()[t],
            v.deep_view(),
            k as int,
        ) by {
            assert(out@[t].deep_view() =~= out@[t]@);
        }
        assert(out.deep_view() =~= poly_mat_mult_spec(m.deep_view(), v.deep_view(), k as int));
        assert forall|t: int| 0 <= t < k implies is_poly(#[trigger] out.deep_view()[t]) by {
            lemma_pvm_is_poly(m.deep_view()[t], v.deep_view(), k as int);
        }
    }
    out
}

/// Column `i` of a matrix of polynomials.
pub open spec fn mat_col(m: Seq<Seq<Seq<u16>>>, i: int, k: int) -> Seq<Seq<u16>> {
    Seq::new(k as nat, |j: int| m[j][i])
}

/// The product of the transpose of `m` with `v`, row by row.
pub open spec fn poly_mat_transpose_mult_spec(
    m: Seq<Seq<Seq<u16>>>,
    v: Seq<Seq<u16>>,
    k: int,
) -> Seq<Seq<u16>> {
    Seq::new(k as nat, |i: int| pvm_spec(mat_col(m, i, k), v, k))
}

/// Transpose of a matrix times a vector, all in NTT domain.
pub fn poly_mat_transpose_mult(m: &Vec<Vec<Vec<u16>>>, v: &Vec<Vec<u16>>) -> (r: Vec<Vec<u16>>)
    requires
        m@.len() == v@.len(),
        is_polymat(m.deep_view(), m@.len() as int),
        is_polyvec(v.deep_view(), v@.len() as int),
    ensures
        r.deep_view() == poly_mat_transpose_mult_spec(
            m.deep_view(),
            v.deep_view(),
            m@.len() as int,
        ),
        is_polyvec(r.deep_view(), m@.len() as int),
{
    let k = m.len();
    let mut out: Vec<Vec<u16>> = Vec::new();
    let mut i: usize = 0;
    while i < k
        invariant
            k == m@.len(),
            m@.len() == v@.len(),
            is_polymat(m.deep_view(), k as int),
            is_polyvec(v.deep_view(), k as int),
            i <= k,
            out@.len() == i,
            forall|t: int|
                0 <= t < i ==> (#[trigger] out@[t])@ == pvm_spec(
                    mat_col(m.deep_view(), t, k as int),
                    v.deep_view(),
                    k as int,
                ),
        decreases k - i,
    {
        let mut col: Vec<Vec<u16>> = Vec::new();
        let mut jj: usize = 0;
        while jj < k
            invariant
                k == m@.len(),
                is_polymat(m.deep_view(), k as int),
                i < k,
                jj <= k,
                col@.len() == jj,
                forall|t: int| 0 <= t < jj ==> (#[trigger] col@[t])@ == m.deep_view()[t][i as int],
            decreases k - jj,
        {
            proof {
                assert(m.deep_view()[jj as int] =~= m@[jj as int].deep_view());
                assert(m@[jj as int].deep_view()[i as int] =~= m@[jj as int]@[i as int]@);
            }
            let entry = clone_poly(&m[jj][i]);
            col.push(entry);
            jj = jj + 1;
        }
        proof {
            assert forall|t: int| 0 <= t < k implies #[trigger] col.deep_view()[t] == mat_col(
                m.deep_view(),
                i as int,
                k as int,
            )[t] by {
                assert(col@[t].deep_view() =~= col@[t]@);
            }
            assert(col.deep_view() =~= mat_col(m.deep_view(), i as int, k as int));
        }
        let row = poly_vec_mult(&col, v);
        out.push(row);
        i = i + 1;
    }
    proof {
        assert forall|t: int| 0 <= t < k implies #[trigger] out.deep_view()[t] == pvm_spec(
            mat_col(m.deep_view(), t, k as int),
            v.deep_view(),
            k as int,
        ) by {
            assert(out@[t].deep_view() =~= out@[t]@);
        }
        assert(out.deep_view() =~= poly_mat_transpose_mult_spec(
            m.deep_view(),
            v.deep_view(),
            k as int,
        ));
        assert forall|t: int| 0 <= t < k implies is_poly(#[trigger] out.deep_view()[t]) by {
            lemma_pvm_is_poly(mat_col(m.deep_view(), t, k as int), v.deep_view(), k as int);
        }
    }
    out
}

} // verus!
