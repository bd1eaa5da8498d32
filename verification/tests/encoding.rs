use blockchain::check_difficulty;
use blockchain::encode::{u128_bytes, u32_bytes, u64_bytes};

#[test]
fn u32_big_endian_exact() {
    assert_eq!(u32_bytes(0x01020304), vec![1, 2, 3, 4]);
    assert_eq!(u32_bytes(0), vec![0, 0, 0, 0]);
    assert_eq!(u32_bytes(u32::MAX), vec![255, 255, 255, 255]);
}

#[test]
fn u64_big_endian_exact() {
    assert_eq!(
        u64_bytes(0x0102030405060708),
        vec![1, 2, 3, 4, 5, 6, 7, 8]
    );
    assert_eq!(u64_bytes(256), vec![0, 0, 0, 0, 0, 0, 1, 0]);
}

#[test]
fn u128_big_endian_exact() {
    assert_eq!(
        u128_bytes(0x0102030405060708090a0b0c0d0e0f10),
        (1u8..=16).collect::<Vec<u8>>()
    );
    assert_eq!(u128_bytes(1 << 120), {
        let mut v = vec![0u8; 16];
        v[0] = 1;
        v
    });
}

#[test]
fn difficulty_reads_leading_sixteen_bytes() {
    let mut hash = vec![0u8; 32];
    assert!(check_difficulty(&hash, 1));
    assert!(!check_difficulty(&hash, 0));
    hash[15] = 1;
    assert!(!check_difficulty(&hash, 1));
    assert!(check_difficulty(&hash, 2));
    // the seventeenth byte plays no part
    hash[15] = 0;
    hash[16] = 255;
    assert!(check_difficulty(&hash, 1));
    // the leading byte is the most significant
    hash[0] = 1;
    assert!(!check_difficulty(&hash, 1u128 << 120));
    assert!(check_difficulty(&hash, (1u128 << 120) + 1));
}
