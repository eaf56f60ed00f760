//! K-PKE: the IND-CPA public-key encryption scheme inside ML-KEM.

use vstd::prelude::*;
use crate::bytes::{concat_bytes, take_range};
use crate::converter::{
    byte_decode, byte_decode_spec, byte_encode, byte_encode_mult, byte_encode_mult_spec,
    byte_encode_spec, compress, compress_spec, decompress, decompress_spec,
};
use crate::hash_utils::{g_33, g_spec_a, g_spec_b, prf, shake128_of, shake256_of};
use crate::ntt::{
    is_poly, is_polymat, is_polyvec, ntt, ntt_inv, ntt_inv_spec, ntt_spec, poly_add,
    poly_add_spec, poly_mat_mult, poly_mat_mult_spec, poly_mat_transpose_mult,
    poly_mat_transpose_mult_spec, poly_sub, poly_sub_spec, poly_vec_add, poly_vec_add_spec,
    poly_vec_mult, pvm_spec,
};
use crate::sample::{sample_ntt, sample_ntt_spec, sample_poly_cbd, sample_poly_cbd_spec, xof_input};

verus! {

/// The three standardised parameter sets, as (k, eta1, eta2, du, dv).
pub open spec fn valid_params(k: int, eta1: int, eta2: int, du: int, dv: int) -> bool {
    ||| (k == 2 && eta1 == 3 && eta2 == 2 && du == 10 && dv == 4)
    ||| (k == 3 && eta1 == 2 && eta2 == 2 && du == 10 && dv == 4)
    ||| (k == 4 && eta1 == 2 && eta2 == 2 && du == 11 && dv == 5)
}

/// NTT-domain matrix entry (i, j), rejection-sampled from the public
/// seed with the (j, i) byte order of FIPS 203.
pub open spec fn matrix_entry(rho: Seq<u8>, i: int, j: int) -> Seq<u16> {
    sample_ntt_spec(shake128_of(xof_input(rho, j as u8, i as u8), 1344))
}

/// The k x k public matrix derived from rho.
pub open spec fn a_matrix(rho: Seq<u8>, k: int) -> Seq<Seq<Seq<u16>>> {
    Seq::new(k as nat, |i: int| Seq::new(k as nat, |j: int| matrix_entry(rho, i, j)))
}

/// A vector of `k` CBD samples drawn with PRF counters base, base+1, ..
pub open spec fn cbd_vec(seed: Seq<u8>, eta: int, base: int, k: int) -> Seq<Seq<u16>> {
    Seq::new(
        k as nat,
        |i: int|
            sample_poly_cbd_spec(shake256_of(seed + seq![(base + i) as u8], 64 * eta), eta),
    )
}

/// Entry-wise forward NTT of a vector of polynomials.
pub open spec fn ntt_vec_spec(v: Seq<Seq<u16>>, k: int) -> Seq<Seq<u16>> {
    Seq::new(k as nat, |i: int| ntt_spec(v[i]))
}

/// The vector t-hat parsed from the leading 384 k bytes of a key.
pub open spec fn parse_t_spec(ek: Seq<u8>, k: int) -> Seq<Seq<u16>> {
    Seq::new(k as nat, |i: int| byte_decode_spec(ek.subrange(384 * i, 384 * (i + 1)), 12))
}

/// Sample the public matrix from rho.
fn build_matrix(rho: &Vec<u8>, k: usize) -> (r: Vec<Vec<Vec<u16>>>)
    requires
        2 <= k <= 4,
    ensures
        r.deep_view() == a_matrix(rho@, k as int),
        is_polymat(r.deep_view(), k as int),
        r@.len() == k,
{
    let mut out: Vec<Vec<Vec<u16>>> = Vec::new();
    let mut i: usize = 0;
    while i < k
        invariant
            2 <= k <= 4,
            i <= k,
            out@.len() == i,
            forall|t: int|
                0 <= t < i ==> (#[trigger] out@[t]).deep_view() == a_matrix(rho@, k as int)[t],
            forall|t: int| 0 <= t < i ==> is_polyvec(#[trigger] out@[t].deep_view(), k as int),
        decreases k - i,
    {
        let mut row: Vec<Vec<u16>> = Vec::new();
        let mut j: usize = 0;
        while j < k
            invariant
                2 <= k <= 4,
                i < k,
                j <= k,
                row@.len() == j,
                forall|t: int|
                    0 <= t < j ==> (#[trigger] row@[t])@ == matrix_entry(rho@, i as int, t),
                forall|t: int| 0 <= t < j ==> is_poly((#[trigger] row@[t])@),
            decreases k - j,
        {
            let entry = sample_ntt(rho, j as u8, i as u8);
            row.push(entry);
            j = j + 1;
        }
        proof {
            assert forall|t: int| 0 <= t < k implies #[trigger] row.deep_view()[t] == a_matrix(
                rho@,
                k as int,
            )[i as int][t] by {
                assert(row@[t].deep_view() =~= row@[t]@);
            }
            assert(row.deep_view() =~= a_matrix(rho@, k as int)[i as int]);
        }
        out.push(row);
        i = i + 1;
    }
    proof {
        assert forall|t: int| 0 <= t < k implies #[trigger] out.deep_view()[t] == a_matrix(
            rho@,
            k as int,
        )[t] by {
            assert(out.deep_view()[t] == out@[t].deep_view());
        }
        assert(out.deep_view() =~= a_matrix(rho@, k as int));
    }
    out
}

/// Draw `k` CBD polynomials with consecutive PRF counters.
fn sample_vec_cbd(seed: &Vec<u8>, eta: usize, base: usize, k: usize) -> (r: Vec<Vec<u16>>)
    requires
        eta == 2 || eta == 3,
        2 <= k <= 4,
        base + k <= 255,
    ensures
        r.deep_view() == cbd_vec(seed@, eta as int, base as int, k as int),
        is_polyvec(r.deep_view(), k as int),
        r@.len() == k,
{
    let mut out: Vec<Vec<u16>> = Vec::new();
    let mut i: usize = 0;
    while i < k
        invariant
            eta == 2 || eta == 3,
            2 <= k <= 4,
            base + k <= 255,
            i <= k,
            out@.len() == i,
            forall|t: int|
                0 <= t < i ==> (#[trigger] out@[t])@ == cbd_vec(
                    seed@,
                    eta as int,
                    base as int,
                    k as int,
                )[t],
            forall|t: int| 0 <= t < i ==> is_poly((#[trigger] out@[t])@),
        decreases k - i,
    {
        let stream = prf(eta, seed, (base + i) as u8);
        let poly = sample_poly_cbd(eta, &stream);
        out.push(poly);
        i = i + 1;
    }
    proof {
        assert forall|t: int| 0 <= t < k implies #[trigger] out.deep_view()[t] == cbd_vec(
            seed@,
            eta as int,
            base as int,
            k as int,
        )[t] by {
            assert(out@[t].deep_view() =~= out@[t]@);
        }
        assert(out.deep_view() =~= cbd_vec(seed@, eta as int, base as int, k as int));
    }
    out
}

/// Forward NTT of each entry of a vector.
fn ntt_vec_exec(v: &Vec<Vec<u16>>) -> (r: Vec<Vec<u16>>)
    requires
        is_polyvec(v.deep_view(), v@.len() as int),
    ensures
        r.deep_view() == ntt_vec_spec(v.deep_view(), v@.len() as int),
        is_polyvec(r.deep_view(), v@.len() as int),
        r@.len() == v@.len(),
{
    let k = v.len();
    let mut out: Vec<Vec<u16>> = Vec::new();
    let mut i: usize = 0;
    while i < k
        invariant
            k == v@.len(),
            is_polyvec(v.deep_view(), k as int),
            i <= k,
            out@.len() == i,
            forall|t: int|
                0 <= t < i ==> (#[trigger] out@[t])@ == ntt_vec_spec(v.deep_view(), k as int)[t],
            forall|t: int| 0 <= t < i ==> is_poly((#[trigger] out@[t])@),
        decreases k - i,
    {
        proof {
            assert(v.deep_view()[i as int] =~= v@[i as int]@);
        }
        let poly = ntt(&v[i]);
        out.push(poly);
        i = i + 1;
    }
    proof {
        assert forall|t: int| 0 <= t < k implies #[trigger] out.deep_view()[t] == ntt_vec_spec(
            v.deep_view(),
            k as int,
        )[t] by {
            assert(out@[t].deep_view() =~= out@[t]@);
        }
        assert(out.deep_view() =~= ntt_vec_spec(v.deep_view(), k as int));
    }
    out
}

/// Parse t-hat from the leading bytes of an encapsulation key.
fn parse_t(ek: &Vec<u8>, k: usize) -> (r: Vec<Vec<u16>>)
    requires
        2 <= k <= 4,
        ek@.len() >= 384 * k,
    ensures
        r.deep_view() == parse_t_spec(ek@, k as int),
        is_polyvec(r.deep_view(), k as int),
        r@.len() == k,
{
    let mut out: Vec<Vec<u16>> = Vec::new();
    let mut i: usize = 0;
    while i < k
        invariant
            2 <= k <= 4,
            ek@.len() >= 384 * k,
            i <= k,
            out@.len() == i,
            forall|t: int|
                0 <= t < i ==> (#[trigger] out@[t])@ == parse_t_spec(ek@, k as int)[t],
            forall|t: int| 0 <= t < i ==> is_poly((#[trigger] out@[t])@),
        decreases k - i,
    {
        let block = take_range(ek, 384 * i, 384 * (i + 1));
        let poly = byte_decode(&block, 12);
        out.push(poly);
        i = i + 1;
    }
    proof {
        assert forall|t: int| 0 <= t < k implies #[trigger] out.deep_view()[t] == parse_t_spec(
            ek@,
            k as int,
        )[t] by {
            assert(out@[t].deep_view() =~= out@[t]@);
        }
        assert(out.deep_view() =~= parse_t_spec(ek@, k as int));
    }
    out
}

/// The key-generation seed expansion: rho is the public matrix seed.
pub open spec fn keygen_rho(k: int, d: Seq<u8>) -> Seq<u8> {
    g_spec_a(d + seq![k as u8])
}

/// The key-generation seed expansion: sigma is the noise seed.
pub open spec fn keygen_sigma(k: int, d: Seq<u8>) -> Seq<u8> {
    g_spec_b(d + seq![k as u8])
}

/// The NTT-domain secret vector of key generation.
pub open spec fn keygen_s_hat(k: int, eta1: int, d: Seq<u8>) -> Seq<Seq<u16>> {
    ntt_vec_spec(cbd_vec(keygen_sigma(k, d), eta1, 0, k), k)
}

/// The NTT-domain public vector t-hat = A s-hat + e-hat.
pub open spec fn keygen_t_hat(k: int, eta1: int, d: Seq<u8>) -> Seq<Seq<u16>> {
    let rho = keygen_rho(k, d);
    let sigma = keygen_sigma(k, d);
    let s_hat = keygen_s_hat(k, eta1, d);
    let e_hat = ntt_vec_spec(cbd_vec(sigma, eta1, k, k), k);
    poly_vec_add_spec(poly_mat_mult_spec(a_matrix(rho, k), s_hat, k), e_hat, k)
}

/// The encryption-key bytes produced by K-PKE key generation.
pub open spec fn pke_keygen_ek_spec(k: int, eta1: int, d: Seq<u8>) -> Seq<u8> {
    byte_encode_mult_spec(keygen_t_hat(k, eta1, d), 12) + keygen_rho(k, d)
}

/// The decryption-key bytes produced by K-PKE key generation.
pub open spec fn pke_keygen_dk_spec(k: int, eta1: int, d: Seq<u8>) -> Seq<u8> {
    byte_encode_mult_spec(keygen_s_hat(k, eta1, d), 12)
}

/// K-PKE key generation from the 32-byte seed d.
pub fn pke_key_gen(k: usize, eta1: usize, d: &Vec<u8>) -> (r: (Vec<u8>, Vec<u8>))
    requires
        valid_params(k as int, eta1 as int, 2, 10, 4) || valid_params(
            k as int,
            eta1 as int,
            2,
            11,
            5,
        ),
        d@.len() == 32,
    ensures
        r.0@ == pke_keygen_ek_spec(k as int, eta1 as int, d@),
        r.1@ == pke_keygen_dk_spec(k as int, eta1 as int, d@),
        r.0@.len() == 384 * k + 32,
        r.1@.len() == 384 * k,
{
    let (rho, sigma) = g_33(d, k as u8);
    let a_mtx = build_matrix(&rho, k);
    let s = sample_vec_cbd(&sigma, eta1, 0, k);
    let e = sample_vec_cbd(&sigma, eta1, k, k);
    let s_hat = ntt_vec_exec(&s);
    let e_hat = ntt_vec_exec(&e);
    let a_s = poly_mat_mult(&a_mtx, &s_hat);
    let t_hat = poly_vec_add(&a_s, &e_hat);
    proof {
        assert forall|t: int| 0 <= t < k implies (#[trigger] t_hat@[t])@.len() == 256 by {
            assert(t_hat.deep_view()[t] =~= t_hat@[t]@);
        }
        assert forall|t: int| 0 <= t < k implies (#[trigger] s_hat@[t])@.len() == 256 by {
            assert(s_hat.deep_view()[t] =~= s_hat@[t]@);
        }
    }
    let ek_body = byte_encode_mult(k, &t_hat, 12);
    let ek = concat_bytes(&ek_body, &rho);
    let dk = byte_encode_mult(k, &s_hat, 12);
    proof {
        assert(t_hat.deep_view() == keygen_t_hat(k as int, eta1 as int, d@));
        assert(s_hat.deep_view() == keygen_s_hat(k as int, eta1 as int, d@));
    }
    (ek, dk)
}

/// The NTT-domain coin vector of encryption.
pub open spec fn enc_y_hat(k: int, eta1: int, r: Seq<u8>) -> Seq<Seq<u16>> {
    ntt_vec_spec(cbd_vec(r, eta1, 0, k), k)
}

/// The vector u of encryption, before compression.
pub open spec fn enc_u(k: int, eta1: int, eta2: int, ek: Seq<u8>, r: Seq<u8>) -> Seq<Seq<u16>> {
    let rho = ek.subrange(384 * k, 384 * k + 32);
    let y_hat = enc_y_hat(k, eta1, r);
    let e1 = cbd_vec(r, eta2, k, k);
    let u0 = poly_mat_transpose_mult_spec(a_matrix(rho, k), y_hat, k);
    Seq::new(k as nat, |i: int| poly_add_spec(ntt_inv_spec(u0[i]), e1[i]))
}

/// The polynomial v of encryption, before compression.
pub open spec fn enc_v(
    k: int,
    eta1: int,
    eta2: int,
    ek: Seq<u8>,
    m: Seq<u8>,
    r: Seq<u8>,
) -> Seq<u16> {
    let t_hat = parse_t_spec(ek, k);
    let y_hat = enc_y_hat(k, eta1, r);
    let e2 = sample_poly_cbd_spec(shake256_of(r + seq![(2 * k) as u8], 64 * eta2), eta2);
    let mu = decompress_spec(1, byte_decode_spec(m, 1));
    poly_add_spec(poly_add_spec(ntt_inv_spec(pvm_spec(t_hat, y_hat, k)), e2), mu)
}

/// The ciphertext bytes of K-PKE encryption.
pub open spec fn pke_encrypt_spec(
    k: int,
    eta1: int,
    eta2: int,
    du: int,
    dv: int,
    ek: Seq<u8>,
    m: Seq<u8>,
    r: Seq<u8>,
) -> Seq<u8> {
    let u = enc_u(k, eta1, eta2, ek, r);
    let v = enc_v(k, eta1, eta2, ek, m, r);
    byte_encode_mult_spec(Seq::new(k as nat, |i: int| compress_spec(du, u[i])), du)
        + byte_encode_spec(compress_spec(dv, v), dv)
}

/// K-PKE encryption of a 32-byte message under coins r.
pub fn pke_encrypt(
    k: usize,
    eta1: usize,
    eta2: usize,
    du: u8,
    dv: u8,
    ek: &Vec<u8>,
    m: &Vec<u8>,
    r: &Vec<u8>,
) -> (c: Vec<u8>)
    requires
        valid_params(k as int, eta1 as int, eta2 as int, du as int, dv as int),
        ek@.len() == 384 * k + 32,
        m@.len() == 32,
        r@.len() == 32,
    ensures
        c@ == pke_encrypt_spec(
            k as int,
            eta1 as int,
            eta2 as int,
            du as int,
            dv as int,
            ek@,
            m@,
            r@,
        ),
        c@.len() == 32 * (du as int * k + dv as int),
{
    let t_hat = parse_t(ek, k);
    let rho = take_range(ek, 384 * k, 384 * k + 32);
    let a_mtx = build_matrix(&rho, k);
    let y = sample_vec_cbd(r, eta1, 0, k);
    let e1 = sample_vec_cbd(r, eta2, k, k);
    let e2_stream = prf(eta2, r, (2 * k) as u8);
    let e2 = sample_poly_cbd(eta2, &e2_stream);
    let y_hat = ntt_vec_exec(&y);
    let u0 = poly_mat_transpose_mult(&a_mtx, &y_hat);
    let ghost u_spec = enc_u(k as int, eta1 as int, eta2 as int, ek@, r@);
    let mut u: Vec<Vec<u16>> = Vec::new();
    let mut i: usize = 0;
    while i < k
        invariant
            2 <= k <= 4,
            u_spec == enc_u(k as int, eta1 as int, eta2 as int, ek@, r@),
            u0@.len() == k,
            e1@.len() == k,
            is_polyvec(u0.deep_view(), k as int),
            is_polyvec(e1.deep_view(), k as int),
            u0.deep_view() == poly_mat_transpose_mult_spec(
                a_matrix(ek@.subrange(384 * k as int, 384 * k as int + 32), k as int),
                enc_y_hat(k as int, eta1 as int, r@),
                k as int,
            ),
            e1.deep_view() == cbd_vec(r@, eta2 as int, k as int, k as int),
            i <= k,
            u@.len() == i,
            forall|t: int| 0 <= t < i ==> (#[trigger] u@[t])@ == u_spec[t],
            forall|t: int| 0 <= t < i ==> is_poly((#[trigger] u@[t])@),
        decreases k - i,
    {
        proof {
            assert(u0.deep_view()[i as int] =~= u0@[i as int]@);
            assert(e1.deep_view()[i as int] =~= e1@[i as int]@);
        }
        let mut ui = ntt_inv(&u0[i]);
        poly_add(&mut ui, &e1[i]);
        u.push(ui);
        i = i + 1;
    }
    let md = byte_decode(m, 1);
    proof {
        vstd::arithmetic::power2::lemma2_to64();
    }
    let mu = decompress(1, &md);
    let tv = poly_vec_mult(&t_hat, &y_hat);
    let mut v = ntt_inv(&tv);
    poly_add(&mut v, &e2);
    poly_add(&mut v, &mu);
    let ghost v_spec = enc_v(k as int, eta1 as int, eta2 as int, ek@, m@, r@);
    proof {
        assert(v@ == v_spec);
    }
    let mut comp_u: Vec<Vec<u16>> = Vec::new();
    let mut i2: usize = 0;
    while i2 < k
        invariant
            2 <= k <= 4,
            1 <= du <= 12,
            u@.len() == k,
            u_spec == enc_u(k as int, eta1 as int, eta2 as int, ek@, r@),
            forall|t: int| 0 <= t < k ==> (#[trigger] u@[t])@ == u_spec[t],
            forall|t: int| 0 <= t < k ==> is_poly((#[trigger] u@[t])@),
            i2 <= k,
            comp_u@.len() == i2,
            forall|t: int|
                0 <= t < i2 ==> (#[trigger] comp_u@[t])@ == compress_spec(du as int, u_spec[t]),
            forall|t: int| 0 <= t < i2 ==> (#[trigger] comp_u@[t])@.len() == 256,
        decreases k - i2,
    {
        let cp = compress(du, &u[i2]);
        comp_u.push(cp);
        i2 = i2 + 1;
    }
    proof {
        assert forall|t: int| 0 <= t < k implies #[trigger] comp_u.deep_view()[t] == compress_spec(
            du as int,
            u_spec[t],
        ) by {
            assert(comp_u@[t].deep_view() =~= comp_u@[t]@);
        }
        assert(comp_u.deep_view() =~= Seq::new(k as nat, |i: int| compress_spec(du as int, u_spec[i])));
    }
    let c1 = byte_encode_mult(k, &comp_u, du);
    let cv = compress(dv, &v);
    let c2 = byte_encode(&cv, dv);
    let c = concat_bytes(&c1, &c2);
    proof {
        assert(c@.len() == 32 * (du as int * k + dv as int)) by (nonlinear_arith)
            requires
                c@.len() == k * (32 * du as int) + 32 * dv as int,
        ;
    }
    c
}

/// The message recovered by K-PKE decryption.
pub open spec fn pke_decrypt_spec(k: int, du: int, dv: int, dk: Seq<u8>, c: Seq<u8>) -> Seq<u8> {
    let u = Seq::new(
        k as nat,
        |i: int|
            decompress_spec(du, byte_decode_spec(c.subrange(32 * du * i, 32 * du * (i + 1)), du)),
    );
    let v = decompress_spec(
        dv,
        byte_decode_spec(c.subrange(32 * du * k, 32 * (du * k + dv)), dv),
    );
    let s_hat = parse_t_spec(dk, k);
    let w = poly_sub_spec(v, ntt_inv_spec(pvm_spec(s_hat, ntt_vec_spec(u, k), k)));
    byte_encode_spec(compress_spec(1, w), 1)
}

/// K-PKE decryption of a ciphertext with the secret key bytes.
pub fn pke_decrypt(k: usize, du: u8, dv: u8, dk: &Vec<u8>, c: &Vec<u8>) -> (m: Vec<u8>)
    requires
        valid_params(k as int, 3, 2, du as int, dv as int) || valid_params(
            k as int,
            2,
            2,
            du as int,
            dv as int,
        ),
        dk@.len() >= 384 * k,
        c@.len() == 32 * (du as int * k + dv as int),
    ensures
        m@ == pke_decrypt_spec(k as int, du as int, dv as int, dk@, c@),
        m@.len() == 32,
{
    let duu = du as usize;
    let ghost u_spec = Seq::new(
        k as nat,
        |i: int|
            decompress_spec(
                du as int,
                byte_decode_spec(c@.subrange(32 * du as int * i, 32 * du as int * (i + 1)), du as int),
            ),
    );
    let mut u: Vec<Vec<u16>> = Vec::new();
    let mut i: usize = 0;
    let clen = c.len();
    proof {
        assert(32 * duu * k <= c@.len()) by (nonlinear_arith)
            requires
                c@.len() == 32 * (du as int * k + dv as int),
                duu == du,
                dv >= 1,
        ;
    }
    while i < k
        invariant
            2 <= k <= 4,
            1 <= duu <= 12,
            duu == du,
            clen == c@.len(),
            c@.len() == 32 * (du as int * k + dv as int),
            32 * duu * k <= clen,
            u_spec == Seq::new(
                k as nat,
                |t: int|
                    decompress_spec(
                        du as int,
                        byte_decode_spec(
                            c@.subrange(32 * du as int * t, 32 * du as int * (t + 1)),
                            du as int,
                        ),
                    ),
            ),
            i <= k,
            u@.len() == i,
            forall|t: int| 0 <= t < i ==> (#[trigger] u@[t])@ == u_spec[t],
            forall|t: int| 0 <= t < i ==> is_poly((#[trigger] u@[t])@),
        decreases k - i,
    {
        proof {
            assert(32 * duu * i + 32 * duu <= 32 * duu * k) by (nonlinear_arith)
                requires
                    i < k,
                    duu >= 1,
            ;
            assert(32 * duu * (i + 1) == 32 * duu * i + 32 * duu) by (nonlinear_arith);
        }
        let block = take_range(c, 32 * duu * i, 32 * duu * i + 32 * duu);
        let dec = byte_decode(&block, du);
        proof {
            if du < 12 {
            } else {
                vstd::arithmetic::power2::lemma2_to64();
            }
        }
        let up = decompress(du, &dec);
        u.push(up);
        i = i + 1;
    }
    let dvu = dv as usize;
    proof {
        assert(32 * duu * k + 32 * dvu == c@.len() && 32 * (du as int * k + dv as int) == 32 * du
            as int * k + 32 * dv as int) by (nonlinear_arith)
            requires
                c@.len() == 32 * (du as int * k + dv as int),
                duu == du,
                dvu == dv,
        ;
    }
    let vblock = take_range(c, 32 * duu * k, 32 * duu * k + 32 * dvu);
    let vdec = byte_decode(&vblock, dv);
    let v = decompress(dv, &vdec);
    let s_hat = parse_t(dk, k);
    let u_hat = ntt_vec_exec(&u);
    proof {
        assert forall|t: int| 0 <= t < k implies #[trigger] u.deep_view()[t] == u_spec[t] by {
            assert(u@[t].deep_view() =~= u@[t]@);
        }
        assert(u.deep_view() =~= u_spec);
    }
    let su = poly_vec_mult(&s_hat, &u_hat);
    let si = ntt_inv(&su);
    let w = poly_sub(&v, &si);
    let cw = compress(1, &w);
    byte_encode(&cw, 1)
}

} // verus!
