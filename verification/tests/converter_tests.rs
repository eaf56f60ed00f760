use ml_kem::converter::{byte_decode, byte_encode, byte_encode_mult, compress, decompress};

#[test]
fn test_byte_encode_mult_decode_roundtrip() {
    let k: usize = 3;
    let d = 10;
    let mut input: Vec<Vec<u16>> = Vec::new();
    for block in 0..k {
        let mut poly: Vec<u16> = Vec::new();
        for i in 0..256 {
            poly.push((block * 256 + i) as u16 % (1 << d));
        }
        input.push(poly);
    }
    let encoded = byte_encode_mult(k, &input, d);
    let mut decoded = Vec::with_capacity(k);
    for i in 0..k {
        let block = encoded[32 * (d as usize) * i..32 * (d as usize) * (i + 1)].to_vec();
        decoded.push(byte_decode(&block, d));
    }
    assert_eq!(decoded, input);
}

#[test]
fn test_byte_encode_decode_roundtrip() {
    let d: u8 = 7;
    let mut input: Vec<u16> = Vec::new();
    for i in 0..256usize {
        input.push((i * 9 + i % 17) as u16 % (1 << d));
    }
    let encoded = byte_encode(&input, d);
    let decoded = byte_decode(&encoded, d);
    assert_eq!(decoded, input);
}

#[test]
fn test_byte_encode_decode_d12_modq() {
    let k: usize = 3;
    let d = 10;
    let mut input: Vec<Vec<u16>> = Vec::new();
    for block in 0..k {
        let mut poly: Vec<u16> = Vec::new();
        for i in 0..256 {
            poly.push((block * 256 + i) as u16 % (1 << d));
        }
        input.push(poly);
    }
    let encoded = byte_encode_mult(k, &input, d);
    let mut decoded = Vec::with_capacity(k);
    for i in 0..k {
        let block = encoded[32 * (d as usize) * i..32 * (d as usize) * (i + 1)].to_vec();
        decoded.push(byte_decode(&block, d));
    }
    let expected: Vec<Vec<u16>> = input
        .iter()
        .map(|poly| poly.iter().map(|x| x % 3329).collect())
        .collect();
    assert_eq!(decoded, expected);
}

#[test]
fn test_compress_decompress_roundtrip() {
    let d = 12;
    let all_values: Vec<u16> = (0..3329).collect();
    for chunk in all_values.chunks(256) {
        let mut input = vec![0u16; 256];
        for (i, &val) in chunk.iter().enumerate() {
            input[i] = val;
        }
        let compressed = compress(d, &input);
        for elem in &compressed {
            println!("{}", elem);
        }
        let decompressed = decompress(d, &compressed);
        assert_eq!(decompressed, input);
    }
}

#[test]
fn test_compress_decompress_error_bound() {
    for &d in &[4u8, 5, 10, 11] {
        let bound = (3329 + (1u32 << (d + 1)) - 1) / (1u32 << (d + 1));
        for x in 0..3329u16 {
            let input = vec![x; 256];
            let back = decompress(d, &compress(d, &input));
            let y = back[0] as i32;
            let xi = x as i32;
            let diff = (y - xi).rem_euclid(3329);
            let err = diff.min(3329 - diff);
            assert!(
                err as u32 <= bound,
                "d={} x={} y={} err={} bound={}",
                d,
                x,
                y,
                err,
                bound
            );
        }
    }
}
