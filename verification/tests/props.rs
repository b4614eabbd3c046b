use magma::GostError;
use magma::GostKey;

fn key() -> GostKey {
    GostKey([
        0xffeeddcc, 0xbbaa9988, 0x77665544, 0x33221100,
        0xf0f1f2f3, 0xf4f5f6f7, 0xf8f9fafb, 0xfcfdfeff,
    ])
}

fn other_key() -> GostKey {
    GostKey([
        0x00000001, 0x00000002, 0x00000003, 0x00000004,
        0x00000005, 0x00000006, 0x00000007, 0x00000008,
    ])
}

#[test]
fn block_round_trip() {
    let blocks: Vec<u64> = vec![0, 1, 0xfedcba9876543210, u64::MAX, 0x0123456789abcdef];
    for b in blocks {
        assert_eq!(magma::magma_decrypt_block(magma::magma_encrypt_block(b, &key()), &key()), b);
        assert_eq!(
            magma::magma_decrypt_block(magma::magma_encrypt_block(b, &other_key()), &other_key()),
            b
        );
    }
}

#[test]
fn ecb_round_trip() {
    let src: Vec<u8> = (0u8..16u8).collect();
    let mut enc: Vec<u8> = vec![0u8; 16];
    let mut dec: Vec<u8> = vec![0u8; 16];
    assert_eq!(magma::magma_encrypt_ecb(&src, &mut enc, &key()), Ok(()));
    assert_eq!(magma::magma_decrypt_ecb(&enc, &mut dec, &key()), Ok(()));
    assert_eq!(dec, src);
}

#[test]
fn gamma_round_trip_unaligned() {
    let src: Vec<u8> = (0u8..13u8).map(|x| x.wrapping_mul(37)).collect();
    let iv: u32 = 0xdeadbeef;
    let mut enc: Vec<u8> = vec![0u8; 13];
    let mut dec: Vec<u8> = vec![0u8; 13];
    assert_eq!(magma::magma_encrypt_gamma(&src, &mut enc, &key(), iv), Ok(()));
    assert_eq!(magma::magma_decrypt_gamma(&enc, &mut dec, &key(), iv), Ok(()));
    assert_eq!(dec, src);
}

#[test]
fn ecb_deterministic() {
    let src: Vec<u8> = vec![0x42u8; 8];
    let mut first: Vec<u8> = vec![0u8; 8];
    let mut second: Vec<u8> = vec![0u8; 8];
    assert_eq!(magma::magma_encrypt_ecb(&src, &mut first, &key()), Ok(()));
    assert_eq!(magma::magma_encrypt_ecb(&src, &mut second, &key()), Ok(()));
    assert_eq!(first, second);
    assert_eq!(
        magma::magma_encrypt_block(0x1122334455667788, &key()),
        magma::magma_encrypt_block(0x1122334455667788, &key())
    );
}

#[test]
fn gamma_keystream_reuse_xor() {
    let p1: Vec<u8> = (0u8..20u8).collect();
    let p2: Vec<u8> = (0u8..20u8).map(|x| x.wrapping_mul(11).wrapping_add(5)).collect();
    let iv: u32 = 0x12345678;
    let mut c1: Vec<u8> = vec![0u8; 20];
    let mut c2: Vec<u8> = vec![0u8; 20];
    assert_eq!(magma::magma_encrypt_gamma(&p1, &mut c1, &key(), iv), Ok(()));
    assert_eq!(magma::magma_encrypt_gamma(&p2, &mut c2, &key(), iv), Ok(()));
    for i in 0..20usize {
        assert_eq!(c1[i] ^ c2[i], p1[i] ^ p2[i]);
    }
}

#[test]
fn length_validation_leaves_destination() {
    let sentinel: Vec<u8> = vec![0xaau8; 8];
    let src7: Vec<u8> = vec![1u8; 7];
    let mut dst: Vec<u8> = sentinel.clone();
    assert_eq!(magma::magma_encrypt_ecb(&src7, &mut dst, &key()), Err(GostError::NotDivisorOf8));
    assert_eq!(dst, sentinel);
    let src16: Vec<u8> = vec![2u8; 16];
    assert_eq!(magma::magma_encrypt_ecb(&src16, &mut dst, &key()), Err(GostError::DifferentLength));
    assert_eq!(dst, sentinel);
    assert_eq!(magma::magma_decrypt_ecb(&src7, &mut dst, &key()), Err(GostError::NotDivisorOf8));
    assert_eq!(dst, sentinel);
    assert_eq!(
        magma::magma_encrypt_gamma(&src16, &mut dst, &key(), 7),
        Err(GostError::DifferentLength)
    );
    assert_eq!(dst, sentinel);
    assert_eq!(
        magma::magma_decrypt_gamma(&src16, &mut dst, &key(), 7),
        Err(GostError::DifferentLength)
    );
    assert_eq!(dst, sentinel);
}

#[test]
fn gamma_tail_matches_full_prefix() {
    let full: Vec<u8> = vec![
        0x59, 0x0a, 0x13, 0x3c, 0x6b, 0xf0, 0xde, 0x92,
        0x20, 0x9d, 0x18, 0xf8, 0x04, 0xc7, 0x54, 0xdb,
    ];
    let iv: u32 = 0x12345678;
    let mut enc_full: Vec<u8> = vec![0u8; 16];
    assert_eq!(magma::magma_encrypt_gamma(&full, &mut enc_full, &key(), iv), Ok(()));
    let prefix: Vec<u8> = full[..7].to_vec();
    let mut enc_prefix: Vec<u8> = vec![0u8; 7];
    assert_eq!(magma::magma_encrypt_gamma(&prefix, &mut enc_prefix, &key(), iv), Ok(()));
    assert_eq!(enc_prefix, enc_full[..7].to_vec());
}

#[test]
fn empty_buffers() {
    let src: Vec<u8> = vec![];
    let mut dst: Vec<u8> = vec![];
    assert_eq!(magma::magma_encrypt_ecb(&src, &mut dst, &key()), Ok(()));
    assert_eq!(magma::magma_decrypt_ecb(&src, &mut dst, &key()), Ok(()));
    assert_eq!(magma::magma_encrypt_gamma(&src, &mut dst, &key(), 0), Ok(()));
    assert!(dst.is_empty());
}

#[test]
fn wide_table_round_matches() {
    let table = magma::WideTable::new();
    let mut l: u32 = 0x76543210;
    let mut r: u32 = 0xfedcba98;
    table.round(&mut l, &mut r, 0xffeeddcc);
    assert_eq!(l, 0x28da3b14);
    assert_eq!(r, 0x76543210);
    let samples: Vec<(u32, u32, u32)> = vec![
        (0, 0, 0),
        (1, 2, 3),
        (0xdeadbeef, 0xcafebabe, 0x12345678),
        (u32::MAX, u32::MAX, u32::MAX),
        (0x0f0f0f0f, 0xf0f0f0f0, 0x55aa55aa),
    ];
    for (l0, r0, k) in samples {
        let mut la: u32 = l0;
        let mut ra: u32 = r0;
        let mut lb: u32 = l0;
        let mut rb: u32 = r0;
        magma::magma_round(&mut la, &mut ra, k);
        table.round(&mut lb, &mut rb, k);
        assert_eq!(la, lb);
        assert_eq!(ra, rb);
    }
}

#[test]
fn error_descriptions() {
    assert_eq!(
        GostError::NotDivisorOf8.description(),
        "source data length must be divisor of 8"
    );
    assert_eq!(
        GostError::DifferentLength.description(),
        "source and destination have different lengths"
    );
}
