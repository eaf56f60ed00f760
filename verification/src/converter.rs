//! Bit-packing codec and lossy compression for ring elements.
//!
//! A polynomial is 256 coefficients.  `byte_encode` packs each
//! coefficient's low `d` bits little-endian into a stream of `32 * d`
//! bytes; `byte_decode` is its inverse (reducing mod q when `d == 12`).
//! `compress`/`decompress` map between Z_q and Z_{2^d} by rounding.

use vstd::prelude::*;
use vstd::arithmetic::power2::*;
use vstd::arithmetic::div_mod::*;
use vstd::bits::*;

verus! {

/// Bit `j` (least significant first) of a 16-bit coefficient.
pub open spec fn coeff_bit(x: u16, j: u16) -> bool {
    (x >> j) & 1 == 1
}

/// Bit `j` (least significant first) of a byte.
pub open spec fn byte_bit(x: u8, j: u8) -> bool {
    (x >> j) & 1 == 1
}

/// Bit `p` of a byte stream, bytes in order, each little-endian.
pub open spec fn stream_bit(bytes: Seq<u8>, p: int) -> bool {
    byte_bit(bytes[p / 8], (p % 8) as u8)
}

/// Bit `p` of the d-bit-packed encoding of polynomial `f`: bit `p % d`
/// of coefficient `p / d`.
pub open spec fn enc_bit(f: Seq<u16>, d: int, p: int) -> bool {
    coeff_bit(f[p / d], (p % d) as u16)
}

/// Value of the `n` low bits of byte `b` of the encoding of `f`.
pub open spec fn enc_byte_val(f: Seq<u16>, d: int, b: int, n: int) -> nat
    decreases n,
{
    if n <= 0 {
        0
    } else {
        enc_byte_val(f, d, b, n - 1) + if enc_bit(f, d, 8 * b + (n - 1)) {
            pow2((n - 1) as nat)
        } else {
            0nat
        }
    }
}

/// The d-bit-packed little-endian encoding of a 256-coefficient
/// polynomial: 32 * d bytes.
pub open spec fn byte_encode_spec(f: Seq<u16>, d: int) -> Seq<u8> {
    Seq::new((32 * d) as nat, |b: int| enc_byte_val(f, d, b, 8) as u8)
}

/// Value of the `n` bits of a byte stream starting at bit `pos`.
pub open spec fn stream_val(bytes: Seq<u8>, pos: int, n: int) -> nat
    decreases n,
{
    if n <= 0 {
        0
    } else {
        stream_val(bytes, pos, n - 1) + if stream_bit(bytes, pos + (n - 1)) {
            pow2((n - 1) as nat)
        } else {
            0nat
        }
    }
}

/// Coefficient `i` recovered from a d-bit-packed stream; for d = 12 the
/// raw 12-bit value is reduced mod q.
pub open spec fn decoded_coeff(bytes: Seq<u8>, d: int, i: int) -> u16 {
    if d == 12 {
        (stream_val(bytes, 12 * i, 12) % 3329) as u16
    } else {
        stream_val(bytes, d * i, d) as u16
    }
}

/// The polynomial recovered from a d-bit-packed stream of 32 * d bytes.
pub open spec fn byte_decode_spec(bytes: Seq<u8>, d: int) -> Seq<u16> {
    Seq::new(256, |i: int| decoded_coeff(bytes, d, i))
}

/// Value of the `n` low bits of a 16-bit coefficient.
pub open spec fn coeff_val(x: u16, n: int) -> nat
    decreases n,
{
    if n <= 0 {
        0
    } else {
        coeff_val(x, n - 1) + if coeff_bit(x, (n - 1) as u16) {
            pow2((n - 1) as nat)
        } else {
            0nat
        }
    }
}

proof fn lemma_enc_byte_val_bound(f: Seq<u16>, d: int, b: int, n: nat)
    ensures
        enc_byte_val(f, d, b, n as int) < pow2(n),
    decreases n,
{
    if n == 0 {
        lemma2_to64();
    } else {
        lemma_enc_byte_val_bound(f, d, b, (n - 1) as nat);
        lemma_pow2_unfold(n);
    }
}

proof fn lemma_stream_val_bound(bytes: Seq<u8>, pos: int, n: nat)
    ensures
        stream_val(bytes, pos, n as int) < pow2(n),
    decreases n,
{
    if n == 0 {
        lemma2_to64();
    } else {
        lemma_stream_val_bound(bytes, pos, (n - 1) as nat);
        lemma_pow2_unfold(n);
    }
}

/// A bit of a byte, read through shift-and-mask, equals the parity of
/// the corresponding division by a power of two.
proof fn lemma_u8_bit_is_div_mod(x: u8, j: u8)
    requires
        j < 8,
    ensures
        byte_bit(x, j) == ((x as nat / pow2(j as nat)) % 2 == 1),
{
    lemma_u8_shr_is_div(x, j);
    let y = x >> j;
    assert(y & 1 == y % 2) by (bit_vector);
}

proof fn lemma_u16_bit_is_div_mod(x: u16, j: u16)
    requires
        j < 16,
    ensures
        coeff_bit(x, j) == ((x as nat / pow2(j as nat)) % 2 == 1),
{
    lemma_u16_shr_is_div(x, j);
    let y = x >> j;
    assert(y & 1 == y % 2) by (bit_vector);
}

/// Bit `j` of the value accumulated by `enc_byte_val` is the encoded
/// bit it came from.
proof fn lemma_enc_byte_val_bit(f: Seq<u16>, d: int, b: int, n: nat, j: nat)
    requires
        j < n,
        n <= 8,
    ensures
        (enc_byte_val(f, d, b, n as int) / pow2(j)) % 2 == (if enc_bit(f, d, 8 * b + j) {
            1nat
        } else {
            0nat
        }),
    decreases n,
{
    let v = enc_byte_val(f, d, b, n as int);
    let v1 = enc_byte_val(f, d, b, n as int - 1);
    let e: nat = if enc_bit(f, d, 8 * b + (n - 1)) {
        1
    } else {
        0
    };
    assert(v == v1 + e * pow2((n - 1) as nat));
    lemma_pow2_pos(j);
    if j == n - 1 {
        lemma_enc_byte_val_bound(f, d, b, (n - 1) as nat);
        lemma_hoist_over_denominator(v1 as int, e as int, pow2(j));
        lemma_basic_div(v1 as int, pow2(j) as int);
        assert(v as int / pow2(j) as int == e);
    } else {
        lemma_enc_byte_val_bit(f, d, b, (n - 1) as nat, j);
        lemma_pow2_adds(j, (n - 1 - j) as nat);
        let c = e * pow2((n - 1 - j) as nat);
        assert(e * (pow2(j) * pow2((n - 1 - j) as nat)) == (e * pow2((n - 1 - j) as nat)) * pow2(
            j,
        )) by (nonlinear_arith);
        assert(v == v1 + c * pow2(j));
        lemma_hoist_over_denominator(v1 as int, c as int, pow2(j));
        assert(v as int / pow2(j) as int == v1 as int / pow2(j) as int + c);
        lemma_pow2_unfold((n - 1 - j) as nat);
        assert(c == 2 * (e * pow2((n - 2 - j) as nat))) by (nonlinear_arith)
            requires
                c == e * pow2((n - 1 - j) as nat),
                pow2((n - 1 - j) as nat) == 2 * pow2((n - 2 - j) as nat),
        ;
        lemma_mod_multiples_vanish((e * pow2((n - 2 - j) as nat)) as int, v1 as int / pow2(
            j,
        ) as int, 2);
    }
}

/// Bit `j` of the value accumulated by `stream_val` is the stream bit
/// it came from.
proof fn lemma_stream_val_bit(bytes: Seq<u8>, pos: int, n: nat, j: nat)
    requires
        j < n,
        n <= 16,
    ensures
        (stream_val(bytes, pos, n as int) / pow2(j)) % 2 == (if stream_bit(bytes, pos + j) {
            1nat
        } else {
            0nat
        }),
    decreases n,
{
    let v = stream_val(bytes, pos, n as int);
    let v1 = stream_val(bytes, pos, n as int - 1);
    let e: nat = if stream_bit(bytes, pos + (n - 1)) {
        1
    } else {
        0
    };
    assert(v == v1 + e * pow2((n - 1) as nat));
    lemma_pow2_pos(j);
    if j == n - 1 {
        lemma_stream_val_bound(bytes, pos, (n - 1) as nat);
        lemma_hoist_over_denominator(v1 as int, e as int, pow2(j));
        lemma_basic_div(v1 as int, pow2(j) as int);
        assert(v as int / pow2(j) as int == e);
    } else {
        lemma_stream_val_bit(bytes, pos, (n - 1) as nat, j);
        lemma_pow2_adds(j, (n - 1 - j) as nat);
        let c = e * pow2((n - 1 - j) as nat);
        assert(e * (pow2(j) * pow2((n - 1 - j) as nat)) == (e * pow2((n - 1 - j) as nat)) * pow2(
            j,
        )) by (nonlinear_arith);
        assert(v == v1 + c * pow2(j));
        lemma_hoist_over_denominator(v1 as int, c as int, pow2(j));
        assert(v as int / pow2(j) as int == v1 as int / pow2(j) as int + c);
        lemma_pow2_unfold((n - 1 - j) as nat);
        assert(c == 2 * (e * pow2((n - 2 - j) as nat))) by (nonlinear_arith)
            requires
                c == e * pow2((n - 1 - j) as nat),
                pow2((n - 1 - j) as nat) == 2 * pow2((n - 2 - j) as nat),
        ;
        lemma_mod_multiples_vanish((e * pow2((n - 2 - j) as nat)) as int, v1 as int / pow2(
            j,
        ) as int, 2);
    }
}

/// The low `n` bits of a coefficient sum to its value mod 2^n.
proof fn lemma_coeff_val_is_mod(x: u16, n: nat)
    requires
        n <= 16,
    ensures
        coeff_val(x, n as int) == (x as nat) % pow2(n),
    decreases n,
{
    if n == 0 {
        lemma2_to64();
        assert((x as nat) % 1 == 0);
    } else {
        lemma_coeff_val_is_mod(x, (n - 1) as nat);
        lemma_pow2_pos((n - 1) as nat);
        lemma_pow2_unfold(n);
        lemma_breakdown(x as int, pow2((n - 1) as nat) as int, 2);
        lemma_u16_bit_is_div_mod(x, (n - 1) as u16);
        let q1 = (x as nat / pow2((n - 1) as nat)) % 2;
        assert(q1 == 0 || q1 == 1) by {
            lemma_mod_division_less_than_divisor(x as int / pow2((n - 1) as nat) as int, 2);
        }
    }
}

/// Every bit of the packed encoding is the coefficient bit it encodes.
proof fn lemma_encode_stream_bits(f: Seq<u16>, d: int, p: int)
    requires
        1 <= d <= 12,
        0 <= p < 256 * d,
    ensures
        stream_bit(byte_encode_spec(f, d), p) == enc_bit(f, d, p),
{
    let enc = byte_encode_spec(f, d);
    let b = p / 8;
    let j = p % 8;
    lemma_fundamental_div_mod(p, 8);
    lemma_mod_division_less_than_divisor(p, 8);
    lemma_div_pos_is_pos(p, 8);
    assert(b < 32 * d) by (nonlinear_arith)
        requires
            p < 256 * d,
            b == p / 8,
            p == 8 * b + j,
            0 <= j < 8,
    ;
    let v = enc_byte_val(f, d, b, 8);
    lemma_enc_byte_val_bound(f, d, b, 8);
    lemma2_to64();
    assert(enc[b] == v as u8);
    lemma_u8_bit_is_div_mod(v as u8, j as u8);
    lemma_enc_byte_val_bit(f, d, b, 8, j as nat);
}

/// Reading `n` bits of the encoding at coefficient `i`'s position
/// accumulates the low bits of that coefficient.
proof fn lemma_decode_encode_val(f: Seq<u16>, d: int, i: int, n: nat)
    requires
        1 <= d <= 12,
        0 <= i < 256,
        n <= d,
    ensures
        stream_val(byte_encode_spec(f, d), d * i, n as int) == coeff_val(f[i], n as int),
    decreases n,
{
    if n > 0 {
        lemma_decode_encode_val(f, d, i, (n - 1) as nat);
        let p = d * i + (n - 1);
        assert(p < 256 * d) by (nonlinear_arith)
            requires
                0 <= i < 256,
                0 < n <= d,
                p == d * i + (n - 1),
        ;
        lemma_encode_stream_bits(f, d, p);
        assert(p == i * d + (n - 1)) by (nonlinear_arith)
            requires
                p == d * i + (n - 1),
        ;
        lemma_fundamental_div_mod_converse(p, d, i, n as int - 1);
    }
}

/// Codec round trip: decoding an encoding recovers each coefficient's
/// low d bits; for d = 12 the result is additionally reduced mod q.
pub proof fn lemma_byte_codec_round_trip(f: Seq<u16>, d: int)
    requires
        1 <= d <= 12,
        f.len() == 256,
        forall|i: int| 0 <= i < 256 ==> f[i] < pow2(d as nat),
    ensures
        byte_decode_spec(byte_encode_spec(f, d), d) =~= Seq::new(
            256,
            |i: int| (f[i] as int % 3329) as u16,
        ),
{
    let enc = byte_encode_spec(f, d);
    let dec = byte_decode_spec(enc, d);
    assert forall|i: int| 0 <= i < 256 implies dec[i] == (f[i] as int % 3329) as u16 by {
        lemma_decode_encode_val(f, d, i, d as nat);
        lemma_coeff_val_is_mod(f[i], d as nat);
        lemma_small_mod(f[i] as nat, pow2(d as nat));
        assert(coeff_val(f[i], d) == f[i]);
        if d == 12 {
            assert(dec[i] == (stream_val(enc, 12 * i, 12) % 3329) as u16);
        } else {
            lemma_pow2_strictly_increases(d as nat, 12);
            lemma2_to64();
            lemma_small_mod(f[i] as nat, 3329);
        }
    }
}

/// Codec round trip on canonical coefficients with d = 12: exact.
pub proof fn lemma_byte_codec_round_trip_poly(f: Seq<u16>)
    requires
        f.len() == 256,
        forall|i: int| 0 <= i < 256 ==> f[i] < 3329,
    ensures
        byte_decode_spec(byte_encode_spec(f, 12), 12) =~= f,
{
    lemma2_to64();
    assert(forall|i: int| 0 <= i < 256 ==> f[i] < pow2(12));
    lemma_byte_codec_round_trip(f, 12);
    assert forall|i: int| 0 <= i < 256 implies byte_decode_spec(byte_encode_spec(f, 12), 12)[i]
        == f[i] by {
        lemma_small_mod(f[i] as nat, 3329);
    }
}

/// Pack the low `d` bits of each of 256 coefficients, little-endian.
pub fn byte_encode(f: &Vec<u16>, d: u8) -> (r: Vec<u8>)
    requires
        1 <= d <= 12,
        f@.len() == 256,
    ensures
        r@ == byte_encode_spec(f@, d as int),
{
    let du = d as usize;
    let mut out: Vec<u8> = Vec::new();
    let mut b: usize = 0;
    while b < 32 * du
        invariant
            1 <= du <= 12,
            du == d,
            f@.len() == 256,
            b <= 32 * du,
            out@.len() == b,
            forall|t: int| 0 <= t < b ==> out@[t] == enc_byte_val(f@, d as int, t, 8) as u8,
        decreases 32 * du - b,
    {
        let mut val: u8 = 0;
        let mut j: usize = 0;
        while j < 8
            invariant
                1 <= du <= 12,
                du == d,
                f@.len() == 256,
                b < 32 * du,
                j <= 8,
                val == enc_byte_val(f@, d as int, b as int, j as int),
            decreases 8 - j,
        {
            let p: usize = 8 * b + j;
            proof {
                assert(p < 256 * du) by (nonlinear_arith)
                    requires
                        b < 32 * du,
                        j < 8,
                        p == 8 * b + j,
                ;
                lemma_div_pos_is_pos(p as int, d as int);
                assert(p / du < 256) by (nonlinear_arith)
                    requires
                        p < 256 * du,
                        1 <= du,
                ;
                lemma_mod_division_less_than_divisor(p as int, d as int);
            }
            let ci: usize = p / du;
            let jj: u16 = (p % du) as u16;
            proof {
                assert(p as int / du as int == p as int / d as int);
                assert(p as int % du as int == p as int % d as int);
            }
            let bit_set = (f[ci] >> jj) & 1 == 1;
            proof {
                assert(bit_set == enc_bit(f@, d as int, p as int));
                lemma_enc_byte_val_bound(f@, d as int, b as int, j as nat);
                lemma2_to64();
                lemma_pow2_strictly_increases(j as nat, 8);
                lemma_u8_shl_is_mul(1u8, j as u8);
            }
            if bit_set {
                val = val + (1u8 << (j as u8));
            }
            j = j + 1;
        }
        out.push(val);
        b = b + 1;
    }
    proof {
        assert(out@ =~= byte_encode_spec(f@, d as int));
    }
    out
}

/// Unpack 256 coefficients of `d` bits each from 32 * d bytes; for
/// d = 12 each value is reduced mod q.
pub fn byte_decode(bytes: &Vec<u8>, d: u8) -> (r: Vec<u16>)
    requires
        1 <= d <= 12,
        bytes@.len() == 32 * d,
    ensures
        r@ == byte_decode_spec(bytes@, d as int),
        r@.len() == 256,
        forall|i: int|
            0 <= i < 256 ==> r@[i] < (if d == 12 {
                3329
            } else {
                pow2(d as nat)
            }),
{
    let du = d as usize;
    let mut out: Vec<u16> = Vec::new();
    let mut i: usize = 0;
    while i < 256
        invariant
            1 <= du <= 12,
            du == d,
            bytes@.len() == 32 * du,
            i <= 256,
            out@.len() == i,
            forall|t: int| 0 <= t < i ==> out@[t] == decoded_coeff(bytes@, d as int, t),
            forall|t: int|
                0 <= t < i ==> out@[t] < (if d == 12 {
                    3329
                } else {
                    pow2(d as nat)
                }),
        decreases 256 - i,
    {
        let mut val: u16 = 0;
        let mut j: usize = 0;
        while j < du
            invariant
                1 <= du <= 12,
                du == d,
                bytes@.len() == 32 * du,
                i < 256,
                j <= du,
                val == stream_val(bytes@, d as int * i as int, j as int),
                val < 4096,
            decreases du - j,
        {
            proof {
                assert(du * i + j < 256 * du) by (nonlinear_arith)
                    requires
                        i < 256,
                        j < du,
                        du <= 12,
                ;
            }
            let p: usize = du * i + j;
            proof {
                lemma_div_pos_is_pos(p as int, 8);
                assert(p / 8 < 32 * du) by (nonlinear_arith)
                    requires
                        p < 256 * du,
                ;
                lemma_mod_division_less_than_divisor(p as int, 8);
            }
            let byte = bytes[p / 8];
            let sh: u8 = (p % 8) as u8;
            let bit_set = (byte >> sh) & 1 == 1;
            proof {
                assert(bit_set == stream_bit(bytes@, p as int));
                lemma_stream_val_bound(bytes@, d as int * i as int, j as nat);
                lemma2_to64();
                lemma_pow2_strictly_increases(j as nat, 12);
                lemma_u16_shl_is_mul(1u16, j as u16);
            }
            if bit_set {
                val = val + (1u16 << (j as u16));
            }
            j = j + 1;
        }
        proof {
            lemma_stream_val_bound(bytes@, d as int * i as int, d as nat);
            lemma2_to64();
            if d < 12 {
                lemma_pow2_strictly_increases(d as nat, 12);
            }
        }
        if d == 12 {
            val = val % 3329;
        }
        out.push(val);
        i = i + 1;
    }
    proof {
        assert(out@ =~= byte_decode_spec(bytes@, d as int));
    }
    out
}

/// Concatenated d-bit-packed encodings of a vector of polynomials.
pub open spec fn byte_encode_mult_spec(fs: Seq<Seq<u16>>, d: int) -> Seq<u8> {
    Seq::new(
        (fs.len() * (32 * d)) as nat,
        |p: int| byte_encode_spec(fs[p / (32 * d)], d)[p % (32 * d)],
    )
}

/// Appending one polynomial's encoding extends the concatenated
/// encoding by one block.
proof fn lemma_encode_mult_step(fs: Seq<Seq<u16>>, d: int, i: int)
    requires
        1 <= d <= 12,
        0 <= i < fs.len(),
    ensures
        byte_encode_mult_spec(fs.take(i + 1), d) =~= byte_encode_mult_spec(fs.take(i), d)
            + byte_encode_spec(fs[i], d),
{
    let w = 32 * d;
    let lhs = byte_encode_mult_spec(fs.take(i + 1), d);
    let rhs = byte_encode_mult_spec(fs.take(i), d) + byte_encode_spec(fs[i], d);
    assert(lhs.len() == rhs.len()) by (nonlinear_arith)
        requires
            lhs.len() == (i + 1) * w,
            rhs.len() == i * w + w,
            w > 0,
    ;
    assert forall|p: int| 0 <= p < lhs.len() implies lhs[p] == rhs[p] by {
        lemma_fundamental_div_mod(p, w);
        lemma_mod_division_less_than_divisor(p, w);
        lemma_div_pos_is_pos(p, w);
        let q1 = p / w;
        assert(q1 <= i) by (nonlinear_arith)
            requires
                p < (i + 1) * w,
                p == w * q1 + p % w,
                0 <= p % w < w,
                0 <= q1,
        ;
        if q1 < i {
            assert(p < i * w) by (nonlinear_arith)
                requires
                    p == w * q1 + p % w,
                    p % w < w,
                    q1 < i,
                    q1 >= 0,
                    w > 0,
            ;
        } else {
            assert(p - i * w == p % w) by (nonlinear_arith)
                requires
                    p == w * q1 + p % w,
                    q1 == i,
            ;
        }
    }
}

/// Pack a vector of `k` polynomials into `32 * d * k` bytes.
pub fn byte_encode_mult(k: usize, f_arr: &Vec<Vec<u16>>, d: u8) -> (r: Vec<u8>)
    requires
        1 <= d <= 12,
        f_arr@.len() == k,
        forall|i: int| 0 <= i < k ==> (#[trigger] f_arr@[i])@.len() == 256,
    ensures
        r@ == byte_encode_mult_spec(f_arr.deep_view(), d as int),
        r@.len() == k * (32 * d),
{
    let ghost fs = f_arr.deep_view();
    let mut out: Vec<u8> = Vec::new();
    let mut i: usize = 0;
    proof {
        assert(out@ =~= byte_encode_mult_spec(fs.take(0), d as int));
    }
    while i < k
        invariant
            1 <= d <= 12,
            f_arr@.len() == k,
            fs == f_arr.deep_view(),
            forall|t: int| 0 <= t < k ==> (#[trigger] f_arr@[t])@.len() == 256,
            i <= k,
            out@ == byte_encode_mult_spec(fs.take(i as int), d as int),
            out@.len() == i * (32 * d),
        decreases k - i,
    {
        proof {
            assert(fs[i as int] == f_arr@[i as int]@);
        }
        let mut block = byte_encode(&f_arr[i], d);
        out.append(&mut block);
        proof {
            lemma_encode_mult_step(fs, d as int, i as int);
            assert(out@.len() == (i + 1) * (32 * d)) by (nonlinear_arith)
                requires
                    out@.len() == i * (32 * d) + 32 * d,
            ;
        }
        i = i + 1;
    }
    proof {
        assert(fs.take(k as int) =~= fs);
    }
    out
}

/// Rounding compression from Z_q to Z_{2^d}:
/// round(x * 2^d / q) mod 2^d, computed exactly in integers.
pub open spec fn compress_coeff(d: int, x: u16) -> u16 {
    (((x * pow2(d as nat) + 1664) / 3329) % pow2(d as nat) as int) as u16
}

/// Coefficient-wise compression of a polynomial.
pub open spec fn compress_spec(d: int, f: Seq<u16>) -> Seq<u16> {
    Seq::new(256, |i: int| compress_coeff(d, f[i]))
}

/// Rounding decompression from Z_{2^d} back to Z_q:
/// round(y * q / 2^d).
pub open spec fn decompress_coeff(d: int, y: u16) -> u16 {
    ((y * 3329 + pow2((d - 1) as nat)) / pow2(d as nat) as int) as u16
}

/// Coefficient-wise decompression of a polynomial.
pub open spec fn decompress_spec(d: int, f: Seq<u16>) -> Seq<u16> {
    Seq::new(256, |i: int| decompress_coeff(d, f[i]))
}

/// Compress each coefficient of a polynomial in Z_q to d bits.
pub fn compress(d: u8, f: &Vec<u16>) -> (r: Vec<u16>)
    requires
        1 <= d <= 12,
        f@.len() == 256,
        forall|i: int| 0 <= i < 256 ==> f@[i] < 3329,
    ensures
        r@ == compress_spec(d as int, f@),
        r@.len() == 256,
        forall|i: int| 0 <= i < 256 ==> r@[i] < pow2(d as nat),
{
    proof {
        lemma2_to64();
        if d < 12 {
            lemma_pow2_strictly_increases(d as nat, 12);
        }
        lemma_pow2_strictly_increases(0, d as nat);
    }
    let two_pow_d: u32 = 1u32 << (d as u32);
    proof {
        lemma_u32_shl_is_mul(1u32, d as u32);
    }
    let mut out: Vec<u16> = Vec::new();
    let mut i: usize = 0;
    while i < 256
        invariant
            1 <= d <= 12,
            f@.len() == 256,
            forall|t: int| 0 <= t < 256 ==> f@[t] < 3329,
            two_pow_d == pow2(d as nat),
            2 <= two_pow_d <= 4096,
            i <= 256,
            out@.len() == i,
            forall|t: int| 0 <= t < i ==> out@[t] == compress_coeff(d as int, f@[t]),
            forall|t: int| 0 <= t < i ==> out@[t] < pow2(d as nat),
        decreases 256 - i,
    {
        proof {
            assert(f@[i as int] as u32 * two_pow_d <= 3328 * 4096) by (nonlinear_arith)
                requires
                    f@[i as int] < 3329,
                    two_pow_d <= 4096,
            ;
        }
        let scaled = (f[i] as u32 * two_pow_d + 1664) / 3329;
        let c = (scaled % two_pow_d) as u16;
        proof {
            lemma_mod_division_less_than_divisor(scaled as int, two_pow_d as int);
        }
        out.push(c);
        i = i + 1;
    }
    proof {
        assert(out@ =~= compress_spec(d as int, f@));
    }
    out
}

/// Decompress each d-bit coefficient back into Z_q.
pub fn decompress(d: u8, f: &Vec<u16>) -> (r: Vec<u16>)
    requires
        1 <= d <= 12,
        f@.len() == 256,
        forall|i: int| 0 <= i < 256 ==> f@[i] < pow2(d as nat),
    ensures
        r@ == decompress_spec(d as int, f@),
        r@.len() == 256,
        forall|i: int| 0 <= i < 256 ==> r@[i] < 3329,
{
    proof {
        lemma2_to64();
        if d < 12 {
            lemma_pow2_strictly_increases(d as nat, 12);
        }
        lemma_pow2_strictly_increases(0, d as nat);
    }
    let two_pow_d: u32 = 1u32 << (d as u32);
    let half: u32 = two_pow_d / 2;
    proof {
        lemma_u32_shl_is_mul(1u32, d as u32);
        lemma_pow2_unfold(d as nat);
        assert(half == pow2((d - 1) as nat));
    }
    let mut out: Vec<u16> = Vec::new();
    let mut i: usize = 0;
    while i < 256
        invariant
            1 <= d <= 12,
            f@.len() == 256,
            forall|t: int| 0 <= t < 256 ==> f@[t] < pow2(d as nat),
            two_pow_d == pow2(d as nat),
            two_pow_d <= 4096,
            half == pow2((d - 1) as nat),
            half * 2 == two_pow_d,
            i <= 256,
            out@.len() == i,
            forall|t: int| 0 <= t < i ==> out@[t] == decompress_coeff(d as int, f@[t]),
            forall|t: int| 0 <= t < i ==> out@[t] < 3329,
        decreases 256 - i,
    {
        let y = f[i];
        proof {
            assert(y as u32 * 3329 <= 4095 * 3329) by (nonlinear_arith)
                requires
                    y < 4096,
            ;
        }
        let c32 = (y as u32 * 3329 + half) / two_pow_d;
        proof {
            assert(y as int * 3329 + half < 3329 * two_pow_d) by (nonlinear_arith)
                requires
                    y < two_pow_d,
                    half * 2 == two_pow_d,
                    half >= 1,
                    half <= 2048,
            ;
            assert(c32 < 3329) by (nonlinear_arith)
                requires
                    y as int * 3329 + half < 3329 * two_pow_d,
                    c32 == (y as u32 * 3329 + half) as int / two_pow_d as int,
                    two_pow_d >= 2,
            ;
        }
        let c = c32 as u16;
        out.push(c);
        i = i + 1;
    }
    proof {
        assert(out@ =~= decompress_spec(d as int, f@));
    }
    out
}

} // verus!
